//! Base64 text, DER framing and percent-encoding.
use base64::Engine;
use vstd::prelude::*;
use vstd::string::*;

use crate::crypto::ber;
use crate::text;
use crate::xml::markup;
use crate::xml::output;

verus! {

/// The standard base64 form of some bytes, padded.
pub uninterp spec fn base64_encoded(data: Seq<u8>) -> Seq<char>;

/// The bytes that a padded standard base64 text stands for, if it is one.
pub uninterp spec fn base64_decoded(text: Seq<char>) -> Option<Seq<u8>>;

/// The characters of base64 text.
pub open spec fn is_base64_char(c: char) -> bool {
    output::is_alphanumeric(c) || c == '+' || c == '/' || c == '='
}

/// `base64`'s standard engine, encoding: the text is made of base64 characters only, and decoding
/// gives the bytes back.
#[verifier::external_body]
pub(crate) fn encode_base64(data: &[u8]) -> (r: String)
    ensures
        r@ == base64_encoded(data@),
        forall|i: int| 0 <= i < r@.len() ==> is_base64_char(#[trigger] r@[i]),
        base64_decoded(r@) == Some(data@),
{
    base64::engine::general_purpose::STANDARD.encode(data)
}

/// `base64`'s standard engine, decoding: the bytes, or nothing for text that is not base64.
#[verifier::external_body]
pub(crate) fn decode_base64(text: &str) -> (r: Option<Vec<u8>>)
    ensures
        text::opt_bytes(r) == base64_decoded(text@),
{
    base64::engine::general_purpose::STANDARD.decode(text).ok()
}

/// Whether a character is a space or a line break.
pub open spec fn is_spacing(c: char) -> bool {
    c == '\n' || c == '\r' || c == ' '
}

/// A text without its spaces and line breaks.
pub open spec fn compact(text: Seq<char>) -> Seq<char> {
    text.filter(|c: char| !is_spacing(c))
}

/// Removes spaces and line breaks.
fn compact_text(text: &str) -> (r: String)
    ensures
        r@ == compact(text@),
{
    let mut out = String::new();
    let len: usize = text.unicode_len();
    let mut i: usize = 0;
    assert(text@.take(0).filter(|c: char| !is_spacing(c)) =~= Seq::<char>::empty()) by {
        reveal(Seq::filter);
    }
    while i < len
        invariant
            i <= len,
            len == text@.len(),
            out@ == compact(text@.take(i as int)),
        decreases len - i,
    {
        let c: char = text.get_char(i);
        proof {
            reveal(Seq::filter);
            assert(text@.take(i + 1).drop_last() =~= text@.take(i as int));
            assert(text@.take(i + 1).last() == c);
        }
        if c != '\n' && c != '\r' && c != ' ' {
            out.push(c);
        }
        i += 1;
    }
    assert(text@.take(len as int) =~= text@);
    out
}

/// The bytes that base64 text stands for, whatever spaces and line breaks it holds.
pub open spec fn embedded_base64(text: Seq<char>) -> Option<Seq<u8>> {
    base64_decoded(compact(text))
}

/// Decodes base64 text that may hold spaces and line breaks.
pub fn decode_b64(text: &str) -> (r: Option<Vec<u8>>)
    ensures
        text::opt_bytes(r) == embedded_base64(text@),
{
    let compacted = compact_text(text);
    decode_base64(compacted.as_str())
}

/// Whether the base64 text of some bytes, read from a document, gives the bytes back.
pub open spec fn reads_back(data: Seq<u8>) -> bool {
    embedded_base64(markup::read_text(base64_encoded(data))) == Some(data)
}

/// Encodes bytes as base64 text, ready to stand in a document.
///
/// Reading the text back gives the bytes, and writing it as element content leaves it as it is.
pub fn encode_b64(data: &[u8]) -> (r: String)
    ensures
        r@ == base64_encoded(data@),
        embedded_base64(r@) == Some(data@),
        reads_back(data@),
        output::escaped(r@, false) == r@,
{
    let out = encode_base64(data);
    proof {
        lemma_compact_keeps(out@);
        lemma_escaped_keeps(out@);
        assert forall|i: int| 0 <= i < out@.len() implies output::is_xml_char(
            #[trigger] out@[i],
        ) by {
            assert(is_base64_char(out@[i]));
        }
        markup::proper_text_is_kept(out@);
    }
    out
}

proof fn lemma_compact_keeps(text: Seq<char>)
    requires
        forall|i: int| 0 <= i < text.len() ==> is_base64_char(#[trigger] text[i]),
    ensures
        compact(text) == text,
    decreases text.len(),
{
    reveal(Seq::filter);
    if text.len() > 0 {
        let front = text.drop_last();
        assert forall|i: int| 0 <= i < front.len() implies is_base64_char(#[trigger] front[i]) by {
            assert(front[i] == text[i]);
        }
        lemma_compact_keeps(front);
        assert(is_base64_char(text[text.len() - 1]));
        assert(text =~= front.push(text.last()));
    } else {
        assert(compact(text) =~= text);
    }
}

proof fn lemma_escaped_keeps(text: Seq<char>)
    requires
        forall|i: int| 0 <= i < text.len() ==> is_base64_char(#[trigger] text[i]),
    ensures
        output::escaped(text, false) == text,
    decreases text.len(),
{
    if text.len() > 0 {
        let front = text.drop_last();
        assert forall|i: int| 0 <= i < front.len() implies is_base64_char(#[trigger] front[i]) by {
            assert(front[i] == text[i]);
        }
        lemma_escaped_keeps(front);
        assert(is_base64_char(text[text.len() - 1]));
        assert(output::escaped(text, false) =~= front + seq![text.last()]);
        assert(text =~= front + seq![text.last()]);
    }
}

/// The largest DER value that is handled, header included.
pub const MAX_DER_LENGTH: usize = 0xfff_ffff;

/// The octets that announce a DER length.
pub open spec fn der_length(n: nat) -> Seq<u8> {
    if n < 0x80 {
        seq![n as u8]
    } else if n < 0x100 {
        seq![0x81u8, n as u8]
    } else if n < 0x1_0000 {
        seq![0x82u8, (n / 0x100) as u8, (n % 0x100) as u8]
    } else if n < 0x100_0000 {
        seq![0x83u8, (n / 0x1_0000) as u8, (n / 0x100 % 0x100) as u8, (n % 0x100) as u8]
    } else {
        seq![
            0x84u8,
            (n / 0x100_0000) as u8,
            (n / 0x1_0000 % 0x100) as u8,
            (n / 0x100 % 0x100) as u8,
            (n % 0x100) as u8,
        ]
    }
}

/// A DER value: tag, length and content.
pub open spec fn der_value(tag: u8, content: Seq<u8>) -> Seq<u8> {
    seq![tag] + der_length(content.len()) + content
}

/// Frames `content` as a DER value, unless that would grow too long.
pub fn frame_der(tag: u8, content: &[u8]) -> (r: Option<Vec<u8>>)
    ensures
        match r {
            Some(v) => v@ == der_value(tag, content@) && v@.len() <= MAX_DER_LENGTH,
            None => der_value(tag, content@).len() > MAX_DER_LENGTH,
        },
{
    let n: usize = content.len();
    if n > MAX_DER_LENGTH {
        return None;
    }
    let mut out: Vec<u8> = Vec::new();
    out.push(tag);
    if n < 0x80 {
        out.push(n as u8);
    } else if n < 0x100 {
        out.push(0x81);
        out.push(n as u8);
    } else if n < 0x1_0000 {
        out.push(0x82);
        out.push((n / 0x100) as u8);
        out.push((n % 0x100) as u8);
    } else if n < 0x100_0000 {
        out.push(0x83);
        out.push((n / 0x1_0000) as u8);
        out.push((n / 0x100 % 0x100) as u8);
        out.push((n % 0x100) as u8);
    } else {
        out.push(0x84);
        out.push((n / 0x100_0000) as u8);
        out.push((n / 0x1_0000 % 0x100) as u8);
        out.push((n / 0x100 % 0x100) as u8);
        out.push((n % 0x100) as u8);
    }
    assert(out@ =~= seq![tag] + der_length(n as nat));
    out.extend_from_slice(content);
    assert(out@ =~= der_value(tag, content@));
    if out.len() > MAX_DER_LENGTH {
        None
    } else {
        Some(out)
    }
}

/// The characters that a reference URI keeps as they are.
pub open spec fn uri_keeps(b: u8) -> bool {
    (0x30 <= b && b <= 0x39) || (0x41 <= b && b <= 0x5a) || (0x61 <= b && b <= 0x7a) || b == 0x2d
        || b == 0x2e || b == 0x5f || b == 0x7e || b == 0x2f
}

/// An upper-case hexadecimal digit.
pub open spec fn hex_digit(n: int) -> char {
    if n < 10 {
        (0x30 + n) as char
    } else {
        (0x37 + n) as char
    }
}

/// How one byte of a file name stands in a reference URI.
pub open spec fn uri_encoded_byte(b: u8) -> Seq<char> {
    if uri_keeps(b) {
        seq![b as char]
    } else {
        percent_encoded(b)
    }
}

/// A byte as a percent sign and two hexadecimal digits.
pub open spec fn percent_encoded(b: u8) -> Seq<char> {
    seq!['%', hex_digit(b as int / 16), hex_digit(b as int % 16)]
}

/// How the bytes of a file name stand in a reference URI.
pub open spec fn uri_encoded(bytes: Seq<u8>) -> Seq<char>
    decreases bytes.len(),
{
    if bytes.len() == 0 {
        Seq::empty()
    } else {
        uri_encoded_byte(bytes[0]) + uri_encoded(bytes.skip(1))
    }
}

/// `percent_encoding::percent_encode_byte`: the percent sign and two upper-case digits.
#[verifier::external_body]
fn percent_encode(b: u8) -> (r: &'static str)
    ensures
        r@ == percent_encoded(b),
{
    percent_encoding::percent_encode_byte(b)
}

/// The URI that stands for a file name in a signature.
///
/// Letters, digits and `-._~/` stay as they are, every other byte of the name's UTF-8 form is
/// percent-encoded.
pub fn encode_reference_uri(name: &str) -> (r: String)
    ensures
        r@ == uri_encoded(vstd::utf8::encode_utf8(name@)),
{
    let bytes = name.as_bytes();
    let mut out = String::new();
    let mut i: usize = 0;
    assert(bytes@.take(0) =~= Seq::<u8>::empty());
    while i < bytes.len()
        invariant
            i <= bytes@.len(),
            out@ == uri_encoded(bytes@.take(i as int)),
        decreases bytes@.len() - i,
    {
        let b: u8 = bytes[i];
        if is_kept(b) {
            out.push(b as char);
        } else {
            out.append(percent_encode(b));
        }
        proof {
            assert(bytes@.take(i + 1) =~= bytes@.take(i as int) + seq![b]);
            lemma_uri_encoded_concat(bytes@.take(i as int), seq![b]);
            assert(seq![b].skip(1) =~= Seq::<u8>::empty());
            assert(uri_encoded(seq![b]) =~= uri_encoded_byte(b)) by {
                reveal_with_fuel(uri_encoded, 2);
            }
        }
        i += 1;
    }
    assert(bytes@.take(i as int) =~= bytes@);
    out
}

fn is_kept(b: u8) -> (r: bool)
    ensures
        r == uri_keeps(b),
{
    (0x30 <= b && b <= 0x39) || (0x41 <= b && b <= 0x5a) || (0x61 <= b && b <= 0x7a) || b == 0x2d
        || b == 0x2e || b == 0x5f || b == 0x7e || b == 0x2f
}

proof fn lemma_uri_encoded_concat(a: Seq<u8>, b: Seq<u8>)
    ensures
        uri_encoded(a + b) == uri_encoded(a) + uri_encoded(b),
    decreases a.len(),
{
    if a.len() == 0 {
        assert(a + b =~= b);
        assert(uri_encoded(a) + uri_encoded(b) =~= uri_encoded(b));
    } else {
        assert((a + b).skip(1) =~= a.skip(1) + b);
        lemma_uri_encoded_concat(a.skip(1), b);
        assert(uri_encoded(a + b) =~= uri_encoded(a) + uri_encoded(b));
    }
}

/// Different names get different URIs.
pub proof fn reference_uri_injective(a: Seq<char>, b: Seq<char>)
    requires
        uri_encoded(vstd::utf8::encode_utf8(a)) == uri_encoded(vstd::utf8::encode_utf8(b)),
    ensures
        a == b,
{
    lemma_uri_encoded_injective(vstd::utf8::encode_utf8(a), vstd::utf8::encode_utf8(b));
    vstd::utf8::encode_utf8_decode_utf8(a);
    vstd::utf8::encode_utf8_decode_utf8(b);
}

proof fn lemma_uri_encoded_injective(a: Seq<u8>, b: Seq<u8>)
    requires
        uri_encoded(a) == uri_encoded(b),
    ensures
        a == b,
    decreases a.len(),
{
    if a.len() == 0 {
        if b.len() != 0 {
            assert(uri_encoded(b).len() > 0);
        }
        assert(a =~= b);
    } else if b.len() == 0 {
        assert(uri_encoded(a).len() > 0);
    } else {
        let (x, y) = (uri_encoded_byte(a[0]), uri_encoded_byte(b[0]));
        assert(uri_encoded(a)[0] == x[0]);
        assert(uri_encoded(b)[0] == y[0]);
        if !uri_keeps(a[0]) {
            assert(uri_encoded(a)[1] == x[1] && uri_encoded(a)[2] == x[2]);
            assert(uri_encoded(b)[1] == y[1] && uri_encoded(b)[2] == y[2]);
        }
        assert(a[0] == b[0]);
        assert(uri_encoded(a.skip(1)) =~= uri_encoded(a).skip(x.len() as int));
        assert(uri_encoded(b.skip(1)) =~= uri_encoded(b).skip(y.len() as int));
        lemma_uri_encoded_injective(a.skip(1), b.skip(1));
        assert(a =~= seq![a[0]] + a.skip(1));
        assert(b =~= seq![b[0]] + b.skip(1));
    }
}

/// A reference URI is made of unreserved characters, slashes and percent signs.
pub proof fn reference_uri_characters(name: Seq<char>, i: int)
    requires
        0 <= i < uri_encoded(vstd::utf8::encode_utf8(name)).len(),
    ensures
        is_uri_char(uri_encoded(vstd::utf8::encode_utf8(name))[i]),
{
    lemma_uri_characters(vstd::utf8::encode_utf8(name), i);
}

/// The characters that reference URIs are made of.
pub open spec fn is_uri_char(c: char) -> bool {
    output::is_alphanumeric(c) || c == '-' || c == '.' || c == '_' || c == '~' || c == '/' || c
        == '%'
}

proof fn lemma_uri_characters(bytes: Seq<u8>, i: int)
    requires
        0 <= i < uri_encoded(bytes).len(),
    ensures
        is_uri_char(uri_encoded(bytes)[i]),
    decreases bytes.len(),
{
    let head = uri_encoded_byte(bytes[0]);
    if i < head.len() {
        assert(uri_encoded(bytes)[i] == head[i]);
    } else {
        assert(uri_encoded(bytes)[i] == uri_encoded(bytes.skip(1))[i - head.len()]);
        lemma_uri_characters(bytes.skip(1), i - head.len());
    }
}

/// The value of an upper-case hexadecimal digit, if a character is one.
pub open spec fn digit_value(c: char) -> Option<int> {
    if '0' <= c && c <= '9' {
        Some(c as int - '0' as int)
    } else if 'A' <= c && c <= 'F' {
        Some(c as int - 'A' as int + 10)
    } else {
        None
    }
}

/// The bytes that a percent-encoded text stands for: a percent sign and two digits stand for the
/// byte of that number, any other ASCII character for itself.
pub open spec fn percent_decoded(uri: Seq<char>) -> Option<Seq<u8>>
    decreases uri.len(),
{
    if uri.len() == 0 {
        Some(Seq::empty())
    } else if uri[0] != '%' {
        match percent_decoded(uri.skip(1)) {
            Some(rest) => if (uri[0] as int) < 0x80 {
                Some(seq![uri[0] as u8] + rest)
            } else {
                None
            },
            None => None,
        }
    } else if uri.len() < 3 {
        None
    } else {
        match (digit_value(uri[1]), digit_value(uri[2]), percent_decoded(uri.skip(3))) {
            (Some(high), Some(low), Some(rest)) => Some(seq![(high * 16 + low) as u8] + rest),
            _ => None,
        }
    }
}

/// Decoding a reference URI gives the bytes of the file name back.
pub proof fn reference_uri_names_the_file(name: Seq<char>)
    ensures
        percent_decoded(uri_encoded(vstd::utf8::encode_utf8(name))) == Some(
            vstd::utf8::encode_utf8(name),
        ),
{
    lemma_uri_decodes(vstd::utf8::encode_utf8(name));
}

proof fn lemma_uri_decodes(bytes: Seq<u8>)
    ensures
        percent_decoded(uri_encoded(bytes)) == Some(bytes),
    decreases bytes.len(),
{
    if bytes.len() > 0 {
        let b = bytes[0];
        let rest = bytes.skip(1);
        let uri = uri_encoded(bytes);
        lemma_uri_decodes(rest);
        assert(bytes =~= seq![b] + rest);
        if uri_keeps(b) {
            assert(uri[0] == b as char);
            assert(uri.skip(1) =~= uri_encoded(rest));
        } else {
            let (high, low) = (b as int / 16, b as int % 16);
            assert(uri[0] == '%' && uri[1] == hex_digit(high) && uri[2] == hex_digit(low));
            assert(uri.skip(3) =~= uri_encoded(rest));
            assert(digit_value(hex_digit(high)) == Some(high));
            assert(digit_value(hex_digit(low)) == Some(low));
            assert((high * 16 + low) as u8 == b);
        }
    }
}

/// A name of ASCII letters, digits and `-._~/` is its own reference URI.
pub proof fn plain_name_is_its_uri(name: Seq<char>)
    requires
        forall|i: int|
            0 <= i < name.len() ==> {
                let c = #[trigger] name[i];
                ('a' <= c && c <= 'z') || ('A' <= c && c <= 'Z') || ('0' <= c && c <= '9') || c
                    == '-' || c == '.' || c == '_' || c == '~' || c == '/'
            },
    ensures
        uri_encoded(vstd::utf8::encode_utf8(name)) == name,
    decreases name.len(),
{
    if name.len() > 0 {
        let rest = name.drop_first();
        assert forall|i: int| 0 <= i < rest.len() implies {
            let c = #[trigger] rest[i];
            ('a' <= c && c <= 'z') || ('A' <= c && c <= 'Z') || ('0' <= c && c <= '9') || c == '-'
                || c == '.' || c == '_' || c == '~' || c == '/'
        } by {
            assert(rest[i] == name[i + 1]);
        }
        plain_name_is_its_uri(rest);
        let c = name[0];
        let bytes = vstd::utf8::encode_utf8(name);
        assert(bytes == vstd::utf8::encode_scalar(c as u32) + vstd::utf8::encode_utf8(rest));
        assert(vstd::utf8::encode_scalar(c as u32) =~= seq![c as u8]) by {
            let v = c as u32;
            assert(vstd::utf8::has_width_1_encoding(v));
            assert((v & 0x7F) as u8 == v as u8) by (bit_vector)
                requires
                    v < 0x80,
            ;
        }
        assert(bytes.skip(1) =~= vstd::utf8::encode_utf8(rest));
        assert(bytes[0] == c as u8);
        assert(uri_encoded(bytes) =~= seq![c] + rest);
        assert(name =~= seq![c] + rest);
    } else {
        assert(uri_encoded(vstd::utf8::encode_utf8(name)) =~= name);
    }
}

/// The reference URI of a name that is put together is put together likewise.
pub proof fn reference_uri_goes_by_parts(front: Seq<u8>, back: Seq<u8>)
    ensures
        uri_encoded(front + back) == uri_encoded(front) + uri_encoded(back),
{
    lemma_uri_encoded_concat(front, back);
}

/// Every other character is percent-encoded: it stands in a reference URI nowhere.
pub proof fn other_bytes_are_percent_encoded(b: u8)
    ensures
        ({
            let c = b as char;
            let kept = ('a' <= c && c <= 'z') || ('A' <= c && c <= 'Z') || ('0' <= c && c <= '9')
                || c == '-' || c == '.' || c == '_' || c == '~' || c == '/';
            &&& kept ==> uri_encoded(seq![b]) == seq![c]
            &&& !kept ==> uri_encoded(seq![b]).len() == 3 && uri_encoded(seq![b])[0] == '%'
        }),
{
    assert(seq![b].skip(1) =~= Seq::<u8>::empty());
    assert(uri_encoded(Seq::<u8>::empty()) =~= Seq::<char>::empty());
    assert(uri_encoded(seq![b]) =~= uri_encoded_byte(b));
}

/// Spaces and line breaks in base64 text make no difference, wherever they stand.
pub proof fn spacing_makes_no_difference(front: Seq<char>, c: char, back: Seq<char>)
    requires
        c == '\n' || c == '\r' || c == ' ',
    ensures
        embedded_base64(front + seq![c] + back) == embedded_base64(front + back),
{
    lemma_compact_concat(front + seq![c], back);
    lemma_compact_concat(front, seq![c]);
    lemma_compact_concat(front, back);
    assert(compact(seq![c]) =~= Seq::<char>::empty()) by {
        reveal(Seq::filter);
        let one = seq![c];
        assert(one.drop_last() =~= Seq::<char>::empty());
        assert(compact(Seq::<char>::empty()) =~= Seq::<char>::empty());
        assert(compact(one) == compact(one.drop_last()));
    }
    assert(compact(front) + Seq::<char>::empty() =~= compact(front));
}

/// Base64 text without spaces and line breaks is decoded as it is.
pub proof fn unspaced_text_is_decoded_as_it_is(text: Seq<char>)
    requires
        !text.contains('\n'),
        !text.contains('\r'),
        !text.contains(' '),
    ensures
        embedded_base64(text) == base64_decoded(text),
    decreases text.len(),
{
    lemma_unspaced(text);
}

proof fn lemma_unspaced(text: Seq<char>)
    requires
        !text.contains('\n'),
        !text.contains('\r'),
        !text.contains(' '),
    ensures
        compact(text) == text,
    decreases text.len(),
{
    reveal(Seq::filter);
    if text.len() > 0 {
        let front = text.drop_last();
        assert forall|c: char| front.contains(c) implies text.contains(c) by {
            let k = front.index_of(c);
            assert(text[k] == c);
        }
        lemma_unspaced(front);
        assert(text.contains(text[text.len() - 1]));
        assert(text =~= front.push(text.last()));
    } else {
        assert(compact(text) =~= text);
    }
}

proof fn lemma_compact_concat(a: Seq<char>, b: Seq<char>)
    ensures
        compact(a + b) == compact(a) + compact(b),
    decreases b.len(),
{
    reveal(Seq::filter);
    if b.len() == 0 {
        assert(a + b =~= a);
        assert(compact(a) + compact(b) =~= compact(a));
    } else {
        assert((a + b).drop_last() =~= a + b.drop_last());
        lemma_compact_concat(a, b.drop_last());
        assert(compact(a + b) =~= compact(a) + compact(b));
    }
}

/// A framed value has the tag and the content, and the length in between, in as few bytes as it
/// takes, is that of the content.
pub proof fn framed_value_reads_back(tag: u8, content: Seq<u8>)
    requires
        tag % 32 != 31,
        content.len() <= MAX_DER_LENGTH,
    ensures
        ({
            let v = der_value(tag, content);
            let start = v.len() - content.len();
            &&& v[0] == tag
            &&& v.skip(start) == content
            &&& content.len() < 0x80 ==> start == 2 && v[1] == content.len()
            &&& content.len() >= 0x80 ==> {
                let n = (start - 2) as nat;
                &&& 1 <= n <= 4
                &&& v[1] == 0x80 + n
                &&& v[2] != 0
                &&& ber::number(v, 2, n) == content.len()
            }
            &&& ber::part(v, 0, v.len() as int) == Some((start, v.len() as int, v.len() as int))
        }),
{
    let v = der_value(tag, content);
    lemma_length_octets(tag, content);
    assert(v.subrange(0, v.len() as int) =~= v);
    framed_value_reads_back_inside(v, 0, v.len() as int, tag, content);
    assert(v.skip(v.len() - content.len()) =~= content);
}

pub(crate) proof fn lemma_length_octets(tag: u8, content: Seq<u8>)
    requires
        content.len() <= MAX_DER_LENGTH,
    ensures
        ({
            let v = der_value(tag, content);
            let start = v.len() - content.len();
            &&& content.len() < 0x80 ==> start == 2 && v[1] == content.len()
            &&& content.len() >= 0x80 ==> {
                let n = (start - 2) as nat;
                &&& 1 <= n <= 4
                &&& v[1] == 0x80 + n
                &&& v[2] != 0
                &&& ber::number(v, 2, n) == content.len()
            }
        }),
{
    let v = der_value(tag, content);
    let n = content.len();
    let head = der_length(n);
    assert(v.len() == 1 + head.len() + n);
    reveal_with_fuel(ber::number, 5);
    assert(forall|i: int| 0 <= i < head.len() ==> v[i + 1] == #[trigger] head[i]);
    if n < 0x80 {
        assert(v[1] == head[0]);
    } else if n < 0x100 {
        assert(v[1] == head[0] && v[2] == head[1]);
    } else if n < 0x1_0000 {
        assert(v[1] == head[0] && v[2] == head[1] && v[3] == head[2]);
    } else if n < 0x100_0000 {
        assert(v[1] == head[0] && v[2] == head[1] && v[3] == head[2] && v[4] == head[3]);
    } else {
        assert(v[1] == head[0] && v[2] == head[1] && v[3] == head[2] && v[4] == head[3] && v[5]
            == head[4]);
    }
}

/// A framed value reads back wherever it stands among other bytes.
pub proof fn framed_value_reads_back_inside(
    b: Seq<u8>,
    p: int,
    end: int,
    tag: u8,
    content: Seq<u8>,
)
    requires
        tag % 32 != 31,
        content.len() <= MAX_DER_LENGTH,
        0 <= p,
        p + der_value(tag, content).len() <= end <= b.len(),
        b.subrange(p, p + der_value(tag, content).len()) == der_value(tag, content),
    ensures
        ({
            let stop = p + der_value(tag, content).len();
            let start = stop - content.len();
            &&& b[p] == tag
            &&& ber::part(b, p, end) == Some((start, stop, stop))
            &&& b.subrange(start, stop) == content
        }),
{
    let v = der_value(tag, content);
    let n = content.len();
    let stop = p + v.len();
    let start = stop - n;
    lemma_length_octets(tag, content);
    assert forall|i: int| 0 <= i < v.len() implies b[p + i] == #[trigger] v[i] by {
        assert(b.subrange(p, p + v.len())[i] == b[p + i]);
    }
    assert(b[p + 0] == v[0] && b[p + 1] == v[1]);
    assert(v.skip(start - p) =~= content);
    assert forall|i: int| 0 <= i < n implies b[start + i] == content[i] by {
        assert(b[p + (start - p + i)] == v[start - p + i]);
        assert(v.skip(start - p)[i] == v[start - p + i]);
    }
    assert(b.subrange(start, stop) =~= content);
    if n >= 0x80 {
        let k = (start - p - 2) as nat;
        let (there, here) = (b.subrange(p + 2, p + 2 + k), v.subrange(2, 2 + k as int));
        assert forall|i: int| 0 <= i < k implies #[trigger] there[i] == here[i] by {
            assert(b[p + (2 + i)] == v[2 + i]);
        }
        assert(there =~= here);
        lemma_same_number(b, p + 2, v, 2, k);
    }
}

pub(crate) proof fn lemma_same_number(a: Seq<u8>, p: int, b: Seq<u8>, q: int, n: nat)
    requires
        0 <= p,
        p + n <= a.len(),
        0 <= q,
        q + n <= b.len(),
        a.subrange(p, p + n) == b.subrange(q, q + n),
    ensures
        ber::number(a, p, n) == ber::number(b, q, n),
    decreases n,
{
    if n > 0 {
        let m = (n - 1) as nat;
        let (there, here) = (a.subrange(p, p + n), b.subrange(q, q + n));
        assert(there[m as int] == a[p + n - 1]);
        assert(here[m as int] == b[q + n - 1]);
        assert(a.subrange(p, p + m) =~= a.subrange(p, p + n).take(m as int));
        assert(b.subrange(q, q + m) =~= b.subrange(q, q + n).take(m as int));
        lemma_same_number(a, p, b, q, m);
    }
}

} // verus!
