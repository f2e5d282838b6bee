//! Writing XML text.
use bergshamra_xml::writer::XmlWriter;
use vstd::prelude::*;

use crate::error::LibError;

verus! {

/// The writer of the `bergshamra-xml` crate, which collects XML text.
#[verifier::external_type_specification]
#[verifier::external_body]
pub struct ExXmlWriter(bergshamra_xml::writer::XmlWriter);

/// The text that a writer has collected.
pub uninterp spec fn written(w: XmlWriter) -> Seq<char>;

/// An ASCII letter.
pub open spec fn is_letter(c: char) -> bool {
    ('a' <= c && c <= 'z') || ('A' <= c && c <= 'Z')
}

/// An ASCII letter or digit.
pub open spec fn is_alphanumeric(c: char) -> bool {
    is_letter(c) || ('0' <= c && c <= '9')
}

/// Whether the rest of `name`, from position `at` on, completes a name.
///
/// `prefixed` tells whether the colon has been passed, `fresh` whether a part of the name starts
/// here.
pub open spec fn completes_name(name: Seq<char>, at: int, prefixed: bool, fresh: bool) -> bool
    decreases name.len() - at,
{
    if at < 0 || at >= name.len() {
        !fresh
    } else if fresh {
        is_letter(name[at]) && completes_name(name, at + 1, prefixed, false)
    } else if name[at] == ':' {
        !prefixed && completes_name(name, at + 1, true, true)
    } else {
        is_alphanumeric(name[at]) && completes_name(name, at + 1, prefixed, false)
    }
}

/// A name of ASCII letters and digits, with at most one prefix.
pub open spec fn plain_name(name: Seq<char>) -> bool {
    completes_name(name, 0, false, true)
}

/// A character that may occur in an XML document.
pub open spec fn is_xml_char(c: char) -> bool {
    c == '\t' || c == '\n' || c == '\r' || ('\u{20}' <= c && c <= '\u{D7FF}') || ('\u{E000}' <= c
        && c <= '\u{FFFD}') || '\u{10000}' <= c
}

/// How one character is written, in text or in an attribute value.
pub open spec fn escaped_char(c: char, in_attribute: bool) -> Seq<char> {
    if c == '&' {
        "&amp;"@
    } else if c == '<' {
        "&lt;"@
    } else if c == '>' {
        "&gt;"@
    } else if c == '\r' {
        "&#xD;"@
    } else if in_attribute && c == '"' {
        "&quot;"@
    } else if in_attribute && c == '\t' {
        "&#x9;"@
    } else if in_attribute && c == '\n' {
        "&#xA;"@
    } else if is_xml_char(c) {
        seq![c]
    } else {
        seq!['\u{FFFD}']
    }
}

/// How a text is written, as element content or as an attribute value.
pub open spec fn escaped(text: Seq<char>, in_attribute: bool) -> Seq<char>
    decreases text.len(),
{
    if text.len() == 0 {
        Seq::empty()
    } else {
        escaped(text.drop_last(), in_attribute) + escaped_char(text.last(), in_attribute)
    }
}

/// Attributes as names and values.
pub open spec fn attribute_views(attributes: Seq<(&str, &str)>) -> Seq<(Seq<char>, Seq<char>)> {
    attributes.map_values(|a: (&str, &str)| (a.0@, a.1@))
}

/// Attributes as they stand in a tag.
pub open spec fn attributes_text(attributes: Seq<(Seq<char>, Seq<char>)>) -> Seq<char>
    decreases attributes.len(),
{
    if attributes.len() == 0 {
        Seq::empty()
    } else {
        attributes_text(attributes.drop_last()) + seq![' '] + attributes.last().0 + seq!['=', '"']
            + escaped(attributes.last().1, true) + seq!['"']
    }
}

/// `<name k="v">`.
#[verifier::opaque]
pub open spec fn start_tag(name: Seq<char>, attributes: Seq<(Seq<char>, Seq<char>)>) -> Seq<
    char,
> {
    seq!['<'] + name + attributes_text(attributes) + seq!['>']
}

/// `<name k="v"/>`.
#[verifier::opaque]
pub open spec fn empty_tag(name: Seq<char>, attributes: Seq<(Seq<char>, Seq<char>)>) -> Seq<
    char,
> {
    seq!['<'] + name + attributes_text(attributes) + seq!['/', '>']
}

/// `</name>`.
#[verifier::opaque]
pub open spec fn end_tag(name: Seq<char>) -> Seq<char> {
    seq!['<', '/'] + name + seq!['>']
}

/// `<name k="v">content</name>`.
pub open spec fn element(
    name: Seq<char>,
    attributes: Seq<(Seq<char>, Seq<char>)>,
    content: Seq<char>,
) -> Seq<char> {
    start_tag(name, attributes) + content + end_tag(name)
}

/// An element that holds text only.
pub open spec fn text_element(name: Seq<char>, text: Seq<char>) -> Seq<char> {
    element(name, Seq::empty(), escaped(text, false))
}

/// Names that may be attributes of one element: each a plain name, none twice.
pub open spec fn attribute_names(attributes: Seq<(Seq<char>, Seq<char>)>) -> bool {
    &&& forall|i: int| 0 <= i < attributes.len() ==> plain_name((#[trigger] attributes[i]).0)
    &&& forall|i: int, j: int|
        0 <= i < j < attributes.len() ==> (#[trigger] attributes[i]).0 != (
        #[trigger] attributes[j]).0
}

/// `XmlWriter::new`: nothing is written yet.
#[verifier::external_body]
pub(crate) fn new_writer() -> (w: XmlWriter)
    ensures
        written(w) == Seq::<char>::empty(),
{
    XmlWriter::new()
}

/// `XmlWriter::write_declaration` appends the XML declaration and does not fail.
#[verifier::external_body]
pub(crate) fn write_declaration(w: &mut XmlWriter) -> (r: Result<(), String>)
    ensures
        r is Ok,
        written(*final(w)) == written(*old(w)) + "<?xml version=\"1.0\" encoding=\"UTF-8\"?>"@,
{
    w.write_declaration().map_err(|e| e.to_string())
}

/// `XmlWriter::start_element` appends a start tag and does not fail.
///
/// Names other than plain ones, and names that occur twice, would be replaced: they are left out.
#[verifier::external_body]
pub(crate) fn start_element(w: &mut XmlWriter, name: &str, attributes: &[(&str, &str)]) -> (r:
    Result<(), String>)
    requires
        plain_name(name@),
        attribute_names(attribute_views(attributes@)),
    ensures
        r is Ok,
        written(*final(w)) == written(*old(w)) + start_tag(name@, attribute_views(attributes@)),
{
    w.start_element(name, attributes).map_err(|e| e.to_string())
}

/// `XmlWriter::empty_element` appends a self-closing tag and does not fail.
///
/// Names are held to the same form as those of start tags.
#[verifier::external_body]
pub(crate) fn empty_element(w: &mut XmlWriter, name: &str, attributes: &[(&str, &str)]) -> (r:
    Result<(), String>)
    requires
        plain_name(name@),
        attribute_names(attribute_views(attributes@)),
    ensures
        r is Ok,
        written(*final(w)) == written(*old(w)) + empty_tag(name@, attribute_views(attributes@)),
{
    w.empty_element(name, attributes).map_err(|e| e.to_string())
}

/// `XmlWriter::end_element` appends an end tag and does not fail.
#[verifier::external_body]
pub(crate) fn end_element(w: &mut XmlWriter, name: &str) -> (r: Result<(), String>)
    requires
        plain_name(name@),
    ensures
        r is Ok,
        written(*final(w)) == written(*old(w)) + end_tag(name@),
{
    w.end_element(name).map_err(|e| e.to_string())
}

/// `XmlWriter::write_text` appends escaped text and does not fail.
#[verifier::external_body]
pub(crate) fn write_text(w: &mut XmlWriter, text: &str) -> (r: Result<(), String>)
    ensures
        r is Ok,
        written(*final(w)) == written(*old(w)) + escaped(text@, false),
{
    w.write_text(text).map_err(|e| e.to_string())
}

/// `XmlWriter::into_string` hands out what was written and does not fail.
#[verifier::external_body]
pub(crate) fn into_text(w: XmlWriter) -> (r: Result<String, String>)
    ensures
        r is Ok,
        r->Ok_0@ == written(w),
{
    w.into_string().map_err(|e| e.to_string())
}

/// A writing failure as the library's error.
pub(crate) fn writing<T>(result: Result<T, String>) -> (r: Result<T, LibError>)
    ensures
        match result {
            Ok(v) => r == Ok::<T, LibError>(v),
            Err(e) => r matches Err(LibError::Xml(m)) && m@ == e@,
        },
{
    match result {
        Ok(v) => Ok(v),
        Err(e) => Err(LibError::Xml(e)),
    }
}

/// Opens an element without attributes.
pub(crate) fn open(w: &mut XmlWriter, name: &str) -> (r: Result<(), LibError>)
    requires
        plain_name(name@),
    ensures
        r is Ok,
        written(*final(w)) == written(*old(w)) + start_tag(name@, Seq::empty()),
{
    let none: [(&str, &str); 0] = [];
    assert(attribute_views(none@) =~= Seq::<(Seq<char>, Seq<char>)>::empty());
    writing(start_element(w, name, &none))
}

/// Opens an element with one attribute.
pub(crate) fn open_with(w: &mut XmlWriter, name: &str, key: &str, value: &str) -> (r: Result<
    (),
    LibError,
>)
    requires
        plain_name(name@),
        plain_name(key@),
    ensures
        r is Ok,
        written(*final(w)) == written(*old(w)) + start_tag(name@, seq![(key@, value@)]),
{
    let one: [(&str, &str); 1] = [(key, value)];
    assert(attribute_views(one@) =~= seq![(key@, value@)]);
    writing(start_element(w, name, &one))
}

/// Writes a self-closing element with one attribute.
pub(crate) fn empty_with(w: &mut XmlWriter, name: &str, key: &str, value: &str) -> (r: Result<
    (),
    LibError,
>)
    requires
        plain_name(name@),
        plain_name(key@),
    ensures
        r is Ok,
        written(*final(w)) == written(*old(w)) + empty_tag(name@, seq![(key@, value@)]),
{
    let one: [(&str, &str); 1] = [(key, value)];
    assert(attribute_views(one@) =~= seq![(key@, value@)]);
    writing(empty_element(w, name, &one))
}

/// Closes an element.
pub(crate) fn close(w: &mut XmlWriter, name: &str) -> (r: Result<(), LibError>)
    requires
        plain_name(name@),
    ensures
        r is Ok,
        written(*final(w)) == written(*old(w)) + end_tag(name@),
{
    writing(end_element(w, name))
}

/// Writes an element that holds text only.
pub(crate) fn write_text_element(w: &mut XmlWriter, tag: &str, text: &str) -> (r: Result<
    (),
    LibError,
>)
    requires
        plain_name(tag@),
    ensures
        r is Ok,
        written(*final(w)) == written(*old(w)) + text_element(tag@, text@),
{
    open(w, tag)?;
    writing(write_text(w, text))?;
    close(w, tag)?;
    proof {
        element_of_one(written(*old(w)), tag@, Seq::empty(), escaped(text@, false));
    }
    Ok(())
}

/// Writing one part inside an element appends the element.
pub(crate) proof fn element_of_one(
    before: Seq<char>,
    name: Seq<char>,
    attributes: Seq<(Seq<char>, Seq<char>)>,
    a: Seq<char>,
)
    ensures
        before + start_tag(name, attributes) + a + end_tag(name) == before + element(
            name,
            attributes,
            a,
        ),
{
    assert(before + start_tag(name, attributes) + a + end_tag(name) =~= before + element(
        name,
        attributes,
        a,
    ));
}

/// Writing two parts inside an element appends the element.
pub(crate) proof fn element_of_two(
    before: Seq<char>,
    name: Seq<char>,
    attributes: Seq<(Seq<char>, Seq<char>)>,
    a: Seq<char>,
    b: Seq<char>,
)
    ensures
        before + start_tag(name, attributes) + a + b + end_tag(name) == before + element(
            name,
            attributes,
            a + b,
        ),
{
    assert(before + start_tag(name, attributes) + a + b + end_tag(name) =~= before + element(
        name,
        attributes,
        a + b,
    ));
}

/// Writing three parts inside an element appends the element.
pub(crate) proof fn element_of_three(
    before: Seq<char>,
    name: Seq<char>,
    attributes: Seq<(Seq<char>, Seq<char>)>,
    a: Seq<char>,
    b: Seq<char>,
    c: Seq<char>,
)
    ensures
        before + start_tag(name, attributes) + a + b + c + end_tag(name) == before + element(
            name,
            attributes,
            a + b + c,
        ),
{
    assert(before + start_tag(name, attributes) + a + b + c + end_tag(name) =~= before + element(
        name,
        attributes,
        a + b + c,
    ));
}

/// Writing four parts inside an element appends the element.
pub(crate) proof fn element_of_four(
    before: Seq<char>,
    name: Seq<char>,
    attributes: Seq<(Seq<char>, Seq<char>)>,
    a: Seq<char>,
    b: Seq<char>,
    c: Seq<char>,
    d: Seq<char>,
)
    ensures
        before + start_tag(name, attributes) + a + b + c + d + end_tag(name) == before + element(
            name,
            attributes,
            a + b + c + d,
        ),
{
    let content = a + b + c + d;
    assert(before + start_tag(name, attributes) + a + b + c + d + end_tag(name) =~= before
        + element(name, attributes, content));
}

} // verus!
