//! What signature documents read as when they are parsed again.
use vstd::prelude::*;
use vstd::string::*;
use vstd::utf8;

use crate::codec;
use crate::crypto::digest;
use crate::error::ErrorView;
use crate::ns;
use crate::sig::elements;
use crate::sig::template;
use crate::sig::template::{DraftView, FileView, UnsignedView};
use crate::text;
use crate::validate::ltv;
use crate::validate::xades;
use crate::validate::Profile;
use crate::x509;
use crate::xml::input;
use crate::xml::input::C14nMethod;
use crate::xml::markup;
use crate::xml::markup::{Markup, Shape, Tag};
use crate::xml::output;
use crate::xml::tree;
use crate::xml::tree::TreeView;

verus! {

/// Whether exactly the node at `q` is an element of some name.
spec fn only(list: Seq<Shape>, ns: Seq<char>, local: Seq<char>, q: int) -> bool {
    &&& 0 <= q < list.len()
    &&& forall|k: int|
        0 <= k < list.len() ==> ((#[trigger] list[k]).name == Some((Some(ns), local)) <==> k == q)
}

/// Whether no node is an element of some name.
spec fn none(list: Seq<Shape>, ns: Seq<char>, local: Seq<char>) -> bool {
    forall|k: int| 0 <= k < list.len() ==> (#[trigger] list[k]).name != Some((Some(ns), local))
}

proof fn lemma_plain_shapes(m: Markup, depth: nat, ns: Seq<char>, local: Seq<char>)
    requires
        elements::is_plain(m),
        !elements::is_other(local),
    ensures
        none(markup::shapes(m, depth), ns, local),
    decreases m,
{
    if let Markup::Parent(_, list) = m {
        lemma_plain_list_shapes(list, depth + 1, ns, local);
        let inner = markup::list_shapes(list, depth + 1);
        let all = markup::shapes(m, depth);
        assert forall|k: int| 0 <= k < all.len() implies (#[trigger] all[k]).name != Some(
            (Some(ns), local),
        ) by {
            if k > 0 {
                assert(all[k] == inner[k - 1]);
            }
        }
    }
}

proof fn lemma_plain_list_shapes(list: Seq<Markup>, depth: nat, ns: Seq<char>, local: Seq<char>)
    requires
        elements::list_is_plain(list),
        !elements::is_other(local),
    ensures
        none(markup::list_shapes(list, depth), ns, local),
    decreases list,
{
    if list.len() > 0 {
        lemma_plain_list_shapes(list.drop_last(), depth, ns, local);
        lemma_plain_shapes(list.last(), depth, ns, local);
        let front = markup::list_shapes(list.drop_last(), depth);
        let last = markup::shapes(list.last(), depth);
        let all = markup::list_shapes(list, depth);
        assert forall|k: int| 0 <= k < all.len() implies (#[trigger] all[k]).name != Some(
            (Some(ns), local),
        ) by {
            if k < front.len() {
                assert(all[k] == front[k]);
            } else {
                assert(all[k] == last[k - front.len()]);
            }
        }
    }
}

/// Where the one element of a name is, if one element of a list holds it.
proof fn lemma_only_member(
    list: Seq<Markup>,
    depth: nat,
    ns: Seq<char>,
    local: Seq<char>,
    i: int,
    q: int,
)
    requires
        !elements::is_other(local),
        0 <= i < list.len(),
        elements::list_is_plain(list.take(i)),
        elements::list_is_plain(list.skip(i + 1)),
        only(markup::shapes(list[i], depth), ns, local, q),
    ensures
        only(
            markup::list_shapes(list, depth),
            ns,
            local,
            markup::list_shapes(list.take(i), depth).len() + q,
        ),
{
    let before = list.take(i);
    let after = list.skip(i + 1);
    assert(list =~= before + seq![list[i]] + after);
    markup::lemma_list_concat(before, seq![list[i]], depth);
    markup::lemma_list_concat(before + seq![list[i]], after, depth);
    markup::lemma_one(list[i], depth);
    lemma_plain_list_shapes(before, depth, ns, local);
    lemma_plain_list_shapes(after, depth, ns, local);
    let a = markup::list_shapes(before, depth);
    let b = markup::shapes(list[i], depth);
    let c = markup::list_shapes(after, depth);
    let all = markup::list_shapes(list, depth);
    assert(all == a + b + c);
    assert forall|k: int| 0 <= k < all.len() implies ((#[trigger] all[k]).name == Some(
        (Some(ns), local),
    ) <==> k == a.len() + q) by {
        if k < a.len() {
            assert(all[k] == a[k]);
        } else if k < a.len() + b.len() {
            assert(all[k] == b[k - a.len()]);
        } else {
            assert(all[k] == c[k - a.len() - b.len()]);
        }
    }
}

/// Where the one element of a name is, if an element of another name holds it.
proof fn lemma_only_inside(
    tag: Tag,
    list: Seq<Markup>,
    depth: nat,
    ns: Seq<char>,
    local: Seq<char>,
    q: int,
)
    requires
        tag.local != local,
        only(markup::list_shapes(list, depth + 1), ns, local, q),
    ensures
        only(markup::shapes(Markup::Parent(tag, list), depth), ns, local, q + 1),
{
    let inner = markup::list_shapes(list, depth + 1);
    let all = markup::shapes(Markup::Parent(tag, list), depth);
    assert forall|k: int| 0 <= k < all.len() implies ((#[trigger] all[k]).name == Some(
        (Some(ns), local),
    ) <==> k == q + 1) by {
        if k > 0 {
            assert(all[k] == inner[k - 1]);
        }
    }
}

/// An element is the one element of its name, if those inside have other names.
proof fn lemma_only_itself(tag: Tag, list: Seq<Markup>, depth: nat, ns: Seq<char>)
    requires
        markup::namespace_of(tag.prefix) == Some(ns),
        !elements::is_other(tag.local),
        none(markup::list_shapes(list, depth + 1), ns, tag.local),
    ensures
        only(markup::shapes(Markup::Parent(tag, list), depth), ns, tag.local, 0),
{
    let inner = markup::list_shapes(list, depth + 1);
    let all = markup::shapes(Markup::Parent(tag, list), depth);
    assert forall|k: int| 0 <= k < all.len() implies ((#[trigger] all[k]).name == Some(
        (Some(ns), tag.local),
    ) <==> k == 0) by {
        if k > 0 {
            assert(all[k] == inner[k - 1]);
        }
    }
}

proof fn lemma_one_match(n: int, wanted: spec_fn(int) -> bool, p: int)
    requires
        0 <= p < n,
        forall|j: int| 0 <= j < n ==> (#[trigger] wanted(j) <==> j == p),
    ensures
        tree::matching(n, wanted) == seq![p],
{
    tree::matching_is_exact(n, wanted);
    let found = tree::matching(n, wanted);
    assert(wanted(p));
    assert(found.contains(p));
    assert forall|i: int| 0 <= i < found.len() implies found[i] == p by {
        assert(found.contains(found[i]));
        assert(wanted(found[i]));
    }
    if found.len() > 1 {
        assert(found[0] < found[1]);
    }
    assert(found =~= seq![p]);
}

/// The one element of a name inside another.
proof fn lemma_descendants(
    doc: TreeView,
    m: Markup,
    a: int,
    depth: nat,
    ns: Seq<char>,
    local: Seq<char>,
    q: int,
)
    requires
        markup::stands(doc, m, a, depth),
        only(markup::shapes(m, depth), ns, local, q),
        q > 0,
    ensures
        doc.descendants(a, ns, local) == seq![a + q],
{
    markup::lemma_extent(doc, m, a, depth);
    let all = markup::shapes(m, depth);
    let wanted = |j: int| doc.is_descendant(a, j) && doc.nodes[j].is_element(ns, local);
    assert forall|j: int| 0 <= j < doc.nodes.len() implies (#[trigger] wanted(j) <==> j == a
        + q) by {
        if a < j < a + all.len() {
            assert(markup::shape_of(doc.nodes[j]) == all[j - a]);
        }
    }
    lemma_one_match(doc.nodes.len() as int, wanted, a + q);
}

/// Where the data object of a signature stands.
pub open spec fn object_place(
    draft: DraftView,
    cert_digest: Seq<u8>,
    issuer_serial: Seq<u8>,
) -> int {
    markup::place(elements::signature_parts(draft, cert_digest, issuer_serial), 3, 3, 3)
}

/// An element of another name that holds none of a name.
proof fn lemma_none_inside(tag: Tag, list: Seq<Markup>, depth: nat, ns: Seq<char>, local: Seq<char>)
    requires
        tag.local != local,
        none(markup::list_shapes(list, depth + 1), ns, local),
    ensures
        none(markup::shapes(Markup::Parent(tag, list), depth), ns, local),
{
    let inner = markup::list_shapes(list, depth + 1);
    let all = markup::shapes(Markup::Parent(tag, list), depth);
    assert forall|k: int| 0 <= k < all.len() implies (#[trigger] all[k]).name != Some(
        (Some(ns), local),
    ) by {
        if k > 0 {
            assert(all[k] == inner[k - 1]);
        }
    }
}

/// Two lists that hold none of a name.
proof fn lemma_none_together(
    a: Seq<Markup>,
    b: Seq<Markup>,
    depth: nat,
    ns: Seq<char>,
    local: Seq<char>,
)
    requires
        none(markup::list_shapes(a, depth), ns, local),
        none(markup::list_shapes(b, depth), ns, local),
    ensures
        none(markup::list_shapes(a + b, depth), ns, local),
{
    markup::lemma_list_concat(a, b, depth);
}

proof fn lemma_special_names()
    ensures
        !elements::is_other("Signature"@),
        !elements::is_other("SignedProperties"@),
        !elements::is_other("QualifyingProperties"@),
        "Signature"@ != "SignedProperties"@,
        "Signature"@ != "QualifyingProperties"@,
        "SignedProperties"@ != "QualifyingProperties"@,
        "XAdESSignatures"@ != "Signature"@,
{
    reveal_strlit("Signature");
    reveal_strlit("SignedProperties");
    reveal_strlit("QualifyingProperties");
    reveal_strlit("XAdESSignatures");
    assert("Signature"@.len() == 9);
    assert("SignedProperties"@.len() == 16);
    assert("QualifyingProperties"@.len() == 20);
    assert("XAdESSignatures"@.len() == 15);
}

/// The qualifying properties hold no others, and no signature.
proof fn lemma_held_none(
    draft: DraftView,
    cert_digest: Seq<u8>,
    issuer_serial: Seq<u8>,
    ns: Seq<char>,
    local: Seq<char>,
)
    requires
        local == "Signature"@ || local == "QualifyingProperties"@,
    ensures
        none(
            markup::list_shapes(elements::qualifying_parts(draft, cert_digest, issuer_serial), 5),
            ns,
            local,
        ),
{
    lemma_special_names();
    elements::lemma_signature_sound(draft, cert_digest, issuer_serial, 127);
    let signed = elements::signed_properties(draft, cert_digest, issuer_serial);
    let parts = elements::signed_parts(draft, cert_digest, issuer_serial);
    let later = elements::unsigned_properties(draft.id, draft.unsigned);
    lemma_plain_list_shapes(parts, 6, ns, local);
    lemma_none_inside(signed.tag(), parts, 5, ns, local);
    markup::lemma_one(signed, 5);
    lemma_plain_list_shapes(later, 5, ns, local);
    lemma_none_together(seq![signed], later, 5, ns, local);
}

/// A signature document holds one signature.
proof fn lemma_only_signature(draft: DraftView, cert_digest: Seq<u8>, issuer_serial: Seq<u8>)
    ensures
        only(
            markup::document_shapes(seq![elements::signature(draft, cert_digest, issuer_serial)]),
            ns::DSIG@,
            "Signature"@,
            2,
        ),
{
    elements::lemma_prefixes();
    lemma_special_names();
    elements::lemma_other_names();
    elements::lemma_signature_sound(draft, cert_digest, issuer_serial, 127);
    let local = "Signature"@;
    let m = elements::signature(draft, cert_digest, issuer_serial);
    let parts = elements::signature_parts(draft, cert_digest, issuer_serial);
    let qualifying = elements::qualifying_properties(draft, cert_digest, issuer_serial);
    let around = elements::object(draft, cert_digest, issuer_serial);
    let held = elements::qualifying_parts(draft, cert_digest, issuer_serial);
    lemma_held_none(draft, cert_digest, issuer_serial, ns::DSIG@, local);
    lemma_none_inside(qualifying.tag(), held, 4, ns::DSIG@, local);
    markup::lemma_one(qualifying, 4);
    lemma_none_inside(around.tag(), seq![qualifying], 3, ns::DSIG@, local);
    markup::lemma_one(around, 3);
    let before = parts.take(3);
    elements::lemma_plain_members(before);
    lemma_plain_list_shapes(before, 3, ns::DSIG@, local);
    lemma_none_together(before, seq![around], 3, ns::DSIG@, local);
    assert(parts =~= before + seq![around]);
    lemma_only_itself(m.tag(), parts, 2, ns::DSIG@);
    markup::lemma_one(m, 2);
    let own = markup::shapes(m, 2);
    let all = markup::document_shapes(seq![m]);
    assert forall|k: int| 0 <= k < all.len() implies ((#[trigger] all[k]).name == Some(
        (Some(ns::DSIG@), local),
    ) <==> k == 2) by {
        if k >= 2 {
            assert(all[k] == own[k - 2]);
        }
    }
}

/// A signature holds one set of qualifying properties with one set of signed properties.
proof fn lemma_only_properties(draft: DraftView, cert_digest: Seq<u8>, issuer_serial: Seq<u8>)
    ensures
        ({
            let all = markup::shapes(elements::signature(draft, cert_digest, issuer_serial), 2);
            let p = object_place(draft, cert_digest, issuer_serial);
            &&& only(all, ns::XADES@, "QualifyingProperties"@, p - 1)
            &&& only(all, ns::XADES@, "SignedProperties"@, p)
        }),
{
    elements::lemma_prefixes();
    lemma_special_names();
    elements::lemma_other_names();
    elements::lemma_signature_sound(draft, cert_digest, issuer_serial, 127);
    let m = elements::signature(draft, cert_digest, issuer_serial);
    let parts = elements::signature_parts(draft, cert_digest, issuer_serial);
    let qualifying = elements::qualifying_properties(draft, cert_digest, issuer_serial);
    let around = elements::object(draft, cert_digest, issuer_serial);
    let held = elements::qualifying_parts(draft, cert_digest, issuer_serial);
    let signed = elements::signed_properties(draft, cert_digest, issuer_serial);
    let inner = elements::signed_parts(draft, cert_digest, issuer_serial);
    let later = elements::unsigned_properties(draft.id, draft.unsigned);
    lemma_held_none(draft, cert_digest, issuer_serial, ns::XADES@, "QualifyingProperties"@);
    lemma_only_itself(qualifying.tag(), held, 4, ns::XADES@);
    lemma_plain_list_shapes(inner, 6, ns::XADES@, "SignedProperties"@);
    lemma_only_itself(signed.tag(), inner, 5, ns::XADES@);
    assert(held.take(0) =~= Seq::<Markup>::empty());
    assert(held.skip(1) =~= later);
    lemma_only_member(held, 5, ns::XADES@, "SignedProperties"@, 0, 0);
    lemma_only_inside(qualifying.tag(), held, 4, ns::XADES@, "SignedProperties"@, 0);
    markup::lemma_one(qualifying, 4);
    let one = seq![qualifying];
    lemma_only_inside(around.tag(), one, 3, ns::XADES@, "QualifyingProperties"@, 0);
    lemma_only_inside(around.tag(), one, 3, ns::XADES@, "SignedProperties"@, 1);
    elements::lemma_plain_members(parts.take(3));
    assert(parts.skip(4) =~= Seq::<Markup>::empty());
    let n = markup::list_shapes(parts.take(3), 3).len() as int;
    lemma_only_member(parts, 3, ns::XADES@, "QualifyingProperties"@, 3, 1);
    lemma_only_inside(m.tag(), parts, 2, ns::XADES@, "QualifyingProperties"@, n + 1);
    lemma_only_member(parts, 3, ns::XADES@, "SignedProperties"@, 3, 2);
    lemma_only_inside(m.tag(), parts, 2, ns::XADES@, "SignedProperties"@, n + 2);
}

/// Where the parts of a signature document stand.
pub(crate) proof fn lemma_found(
    draft: DraftView,
    cert_digest: Seq<u8>,
    issuer_serial: Seq<u8>,
    doc: TreeView,
)
    requires
        doc.source == template::signature_document(draft, cert_digest, issuer_serial),
        markup::reads_as_written(doc),
    ensures
        ({
            let p = object_place(draft, cert_digest, issuer_serial);
            let qualifying = elements::qualifying_properties(draft, cert_digest, issuer_serial);
            let signed = elements::signed_properties(draft, cert_digest, issuer_serial);
            &&& markup::stands(doc, elements::signature(draft, cert_digest, issuer_serial), 2, 2)
            &&& markup::stands(doc, qualifying, p + 1, 4)
            &&& markup::stands(doc, signed, p + 2, 5)
            &&& doc.descendants(0, ns::DSIG@, "Signature"@) == seq![2int]
            &&& doc.descendants(2, ns::XADES@, "QualifyingProperties"@) == seq![p + 1]
            &&& doc.descendants(2, ns::XADES@, "SignedProperties"@) == seq![p + 2]
        }),
{
    let m = elements::signature(draft, cert_digest, issuer_serial);
    let content = seq![m];
    let shapes = markup::document_shapes(content);
    elements::document_is_written_from_elements(draft, cert_digest, issuer_serial);
    elements::lemma_signature_sound(draft, cert_digest, issuer_serial, 127);
    markup::lemma_sound_members(content, 127);
    assert(markup::document_text(content) == doc.source);
    assert(markup::holds(doc, shapes, 0));
    let own = markup::list_shapes(content, 2);
    assert forall|k: int| 2 <= k < 2 + own.len() implies markup::shape_of(#[trigger] doc.nodes[k])
        == own[k - 2] by {
        assert(markup::shape_of(doc.nodes[k]) == shapes[k]);
    }
    assert(markup::list_stands(doc, content, 2, 2));
    markup::lemma_member(doc, content, 2, 2, 0);
    assert(content.take(0) =~= Seq::<Markup>::empty());
    assert(markup::stands(doc, m, 2, 2));
    lemma_only_signature(draft, cert_digest, issuer_serial);
    let wanted = |j: int|
        doc.is_descendant(0, j) && doc.nodes[j].is_element(ns::DSIG@, "Signature"@);
    assert forall|j: int| 0 <= j < doc.nodes.len() implies (#[trigger] wanted(j) <==> j == 2) by {
        assert(markup::shape_of(doc.nodes[j]) == shapes[j]);
        if j == 2 {
            assert(markup::shape_of(doc.nodes[0]) == shapes[0]);
            assert(markup::shape_of(doc.nodes[1]) == shapes[1]);
            markup::lemma_extent(doc, m, 2, 2);
        }
    }
    lemma_one_match(doc.nodes.len() as int, wanted, 2);
    lemma_only_properties(draft, cert_digest, issuer_serial);
    let p = object_place(draft, cert_digest, issuer_serial);
    lemma_descendants(doc, m, 2, 2, ns::XADES@, "QualifyingProperties"@, p - 1);
    lemma_descendants(doc, m, 2, 2, ns::XADES@, "SignedProperties"@, p);
    let parts = elements::signature_parts(draft, cert_digest, issuer_serial);
    markup::lemma_content(doc, m.tag(), parts, 2, 2);
    markup::lemma_member(doc, parts, 3, 3, 3);
    let qualifying = elements::qualifying_properties(draft, cert_digest, issuer_serial);
    let around = elements::object(draft, cert_digest, issuer_serial);
    markup::lemma_content(doc, around.tag(), seq![qualifying], p, 3);
    markup::lemma_member(doc, seq![qualifying], p + 1, 4, 0);
    assert(seq![qualifying].take(0) =~= Seq::<Markup>::empty());
    let held = elements::qualifying_parts(draft, cert_digest, issuer_serial);
    markup::lemma_content(doc, qualifying.tag(), held, p + 1, 4);
    markup::lemma_member(doc, held, p + 2, 5, 0);
    assert(held.take(0) =~= Seq::<Markup>::empty());
}

pub(crate) proof fn lemma_find_one(key: Seq<char>, value: Seq<char>, name: Seq<char>)
    ensures
        tree::find_attribute(markup::read_attributes(seq![(key, value)]), name) == if key == name {
            Some(markup::read_text(value))
        } else {
            None
        },
{
    let list = markup::read_attributes(seq![(key, value)]);
    assert(list =~= seq![(key, markup::read_text(value))]);
    reveal_with_fuel(tree::find_attribute, 2);
}

pub(crate) proof fn lemma_find_two(
    first: (Seq<char>, Seq<char>),
    second: (Seq<char>, Seq<char>),
    name: Seq<char>,
)
    ensures
        tree::find_attribute(markup::read_attributes(seq![first, second]), name) == if first.0
            == name {
            Some(markup::read_text(first.1))
        } else if second.0 == name {
            Some(markup::read_text(second.1))
        } else {
            None
        },
{
    let list = markup::read_attributes(seq![first, second]);
    assert(list =~= seq![
        (first.0, markup::read_text(first.1)),
        (second.0, markup::read_text(second.1)),
    ]);
    reveal_with_fuel(tree::find_attribute, 3);
}

/// A reference inside the document reads as one to what the identifier reads as.
pub(crate) proof fn lemma_hash(id: Seq<char>)
    ensures
        markup::read_text("#"@ + id) == "#"@ + markup::read_text(id),
        text::after_hash(markup::read_text("#"@ + id)) == Some(markup::read_text(id)),
{
    reveal_strlit("#");
    let whole = markup::read_text("#"@ + id);
    assert(whole =~= "#"@ + markup::read_text(id));
    assert(whole.skip(1) =~= markup::read_text(id));
}

/// Whether the characters from a place on may occur in a document.
spec fn proper_from(text: Seq<char>, at: int) -> bool
    decreases text.len() - at,
{
    at < 0 || at >= text.len() || (output::is_xml_char(text[at]) && proper_from(text, at + 1))
}

proof fn lemma_proper_from(text: Seq<char>, at: int)
    requires
        0 <= at,
        proper_from(text, at),
    ensures
        forall|i: int| at <= i < text.len() ==> output::is_xml_char(#[trigger] text[i]),
    decreases text.len() - at,
{
    if at < text.len() {
        lemma_proper_from(text, at + 1);
    }
}

proof fn lemma_proper_text(text: Seq<char>)
    requires
        proper_from(text, 0),
    ensures
        markup::read_text(text) == text,
{
    lemma_proper_from(text, 0);
    markup::proper_text_is_kept(text);
}

pub(crate) proof fn lemma_type_kept()
    ensures
        markup::read_text(ns::TYPE_SIGNED_PROPERTIES@) == ns::TYPE_SIGNED_PROPERTIES@,
{
    assert(proper_from(ns::TYPE_SIGNED_PROPERTIES@, 0)) by {
        reveal_strlit("http://uri.etsi.org/01903#SignedProperties");
        reveal_with_fuel(proper_from, 45);
    }
    lemma_proper_text(ns::TYPE_SIGNED_PROPERTIES@);
}

proof fn lemma_method_kept(uri: Seq<char>)
    requires
        digest::is_allowed(uri),
    ensures
        markup::read_text(uri) == uri,
{
    assert(proper_from(uri, 0)) by {
        reveal_strlit("http://www.w3.org/2001/04/xmlenc#sha256");
        reveal_strlit("http://www.w3.org/2001/04/xmldsig-more#sha384");
        reveal_strlit("http://www.w3.org/2001/04/xmlenc#sha512");
        reveal_with_fuel(proper_from, 50);
        assert(proper_from(ns::SHA256@, 0));
        assert(proper_from(ns::SHA384@, 0));
        assert(proper_from(ns::SHA512@, 0));
    }
    lemma_proper_text(uri);
}

/// What the reference to a file reads as.
proof fn lemma_reference_read(
    doc: TreeView,
    id: Seq<char>,
    digest_uri: Seq<char>,
    file: FileView,
    a: int,
)
    requires
        markup::stands(doc, elements::file_reference(id, digest_uri, file), a, 4),
    ensures
        doc.attribute(a, "Id"@) == Some(markup::read_text(id)),
        !xades::covers_properties(doc, a),
{
    elements::lemma_keys();
    let m = elements::file_reference(id, digest_uri, file);
    markup::lemma_attribute(doc, m, a, 4, "Id"@);
    markup::lemma_attribute(doc, m, a, 4, "Type"@);
    lemma_find_two(("Id"@, id), ("URI"@, file.uri), "Id"@);
    lemma_find_two(("Id"@, id), ("URI"@, file.uri), "Type"@);
}

/// What the format of a file reads as.
proof fn lemma_format_read(doc: TreeView, id: Seq<char>, file: FileView, a: int)
    requires
        markup::stands(doc, elements::file_format(id, file), a, 7),
    ensures
        doc.attribute(a, "ObjectReference"@) == Some("#"@ + markup::read_text(id)),
        text::after_hash("#"@ + markup::read_text(id)) == Some(markup::read_text(id)),
        doc.child(a, ns::XADES@, "MimeType"@) is Some,
{
    elements::lemma_prefixes();
    lemma_hash(id);
    let m = elements::file_format(id, file);
    markup::lemma_attribute(doc, m, a, 7, "ObjectReference"@);
    lemma_find_one("ObjectReference"@, "#"@ + id, "ObjectReference"@);
    let kind = Markup::Leaf(elements::xa("MimeType"@, elements::bare()), file.mime_type);
    markup::lemma_child(doc, m.tag(), seq![kind], a, 7, ns::XADES@, "MimeType"@, 0);
}

proof fn lemma_no_reference_warnings(doc: TreeView, formats: Seq<int>, references: Seq<int>)
    requires
        forall|i: int|
            0 <= i < references.len() ==> (#[trigger] xades::reference_warnings(
                doc,
                formats,
                references[i],
            )).len() == 0,
    ensures
        xades::references_warnings(doc, formats, references).len() == 0,
    decreases references.len(),
{
    if references.len() > 0 {
        let front = references.drop_last();
        assert forall|i: int| 0 <= i < front.len() implies (#[trigger] xades::reference_warnings(
            doc,
            formats,
            front[i],
        )).len() == 0 by {
            assert(front[i] == references[i]);
        }
        lemma_no_reference_warnings(doc, formats, front);
        assert(references.last() == references[references.len() - 1]);
    }
}

proof fn lemma_no_format_warnings(doc: TreeView, references: Seq<int>, formats: Seq<int>)
    requires
        forall|i: int|
            0 <= i < formats.len() ==> (#[trigger] xades::format_warnings(
                doc,
                references,
                formats[i],
            )).len() == 0,
    ensures
        xades::formats_warnings(doc, references, formats).len() == 0,
    decreases formats.len(),
{
    if formats.len() > 0 {
        let front = formats.drop_last();
        assert forall|i: int| 0 <= i < front.len() implies (#[trigger] xades::format_warnings(
            doc,
            references,
            front[i],
        )).len() == 0 by {
            assert(front[i] == formats[i]);
        }
        lemma_no_format_warnings(doc, references, front);
        assert(formats.last() == formats[formats.len() - 1]);
    }
}

pub(crate) proof fn lemma_different_names()
    ensures
        "CanonicalizationMethod"@ != "Reference"@,
        "SignatureMethod"@ != "Reference"@,
        "SignedSignatureProperties"@ != "SignedDataObjectProperties"@,
        "SignedProperties"@ != "UnsignedProperties"@,
        "SignatureTimeStamp"@ != "RevocationValues"@,
        "CertificateValues"@ != "RevocationValues"@,
        "SigningTime"@ != "SigningCertificate"@,
        "SigningTime"@ != "SigningCertificateV2"@,
        "SigningCertificateV2"@ != "SigningCertificate"@,
        "DigestMethod"@ != "DigestValue"@,
{
    reveal_strlit("CanonicalizationMethod");
    reveal_strlit("SignatureMethod");
    reveal_strlit("Reference");
    reveal_strlit("SignedSignatureProperties");
    reveal_strlit("SignedDataObjectProperties");
    reveal_strlit("SignedProperties");
    reveal_strlit("UnsignedProperties");
    reveal_strlit("SignatureTimeStamp");
    reveal_strlit("CertificateValues");
    reveal_strlit("RevocationValues");
    assert("CanonicalizationMethod"@.len() == 22 && "SignatureMethod"@.len() == 15);
    assert("Reference"@.len() == 9);
    assert("SignedSignatureProperties"@.len() == 25);
    assert("SignedDataObjectProperties"@.len() == 26);
    assert("SignedProperties"@.len() == 16 && "UnsignedProperties"@.len() == 18);
    assert("SignatureTimeStamp"@.len() == 18 && "CertificateValues"@.len() == 17);
    assert("RevocationValues"@.len() == 16);
    reveal_strlit("SigningTime");
    reveal_strlit("SigningCertificate");
    reveal_strlit("SigningCertificateV2");
    reveal_strlit("DigestMethod");
    reveal_strlit("DigestValue");
    assert("SigningTime"@.len() == 11 && "SigningCertificate"@.len() == 18);
    assert("SigningCertificateV2"@.len() == 20);
    assert("DigestMethod"@.len() == 12 && "DigestValue"@.len() == 11);
}

/// The file of a reference.
proof fn lemma_which_reference(draft: DraftView, doc: TreeView, a: int, j: int) -> (i: int)
    requires
        markup::stands(doc, elements::signed_info(draft), a, 3),
        doc.children(a, ns::DSIG@, "Reference"@).contains(j),
    ensures
        0 <= i <= draft.files.len(),
        j == markup::place(elements::signed_info_parts(draft), a + 1, 4, i + 2),
        i < draft.files.len() ==> doc.attribute(j, "Id"@) == Some(
            markup::read_text(template::reference_id(draft.id, i as nat)),
        ),
        xades::covers_properties(doc, j) <==> i == draft.files.len(),
{
    elements::lemma_prefixes();
    lemma_different_names();
    elements::lemma_keys();
    let list = elements::signed_info_parts(draft);
    let tag = elements::ds("SignedInfo"@, elements::bare());
    markup::lemma_children(doc, tag, list, a, 3, ns::DSIG@, "Reference"@);
    markup::lemma_content(doc, tag, list, a, 3);
    let k = choose|k: int|
        0 <= k < list.len() && j == #[trigger] markup::place(list, a + 1, 4, k)
            && markup::is_named(list[k], ns::DSIG@, "Reference"@);
    markup::lemma_member(doc, list, a + 1, 4, k);
    let i = k - 2;
    assert(i >= 0);
    if i < draft.files.len() {
        let id = template::reference_id(draft.id, i as nat);
        assert(list[k] == elements::file_reference(id, draft.digest_uri, draft.files[i]));
        lemma_reference_read(doc, id, draft.digest_uri, draft.files[i], j);
    } else {
        let m = elements::properties_reference(draft);
        assert(list[k] == m);
        markup::lemma_attribute(doc, m, j, 4, "Type"@);
        lemma_find_two(
            ("Type"@, ns::TYPE_SIGNED_PROPERTIES@),
            ("URI"@, "#"@ + draft.signed_properties_id()),
            "Type"@,
        );
        lemma_type_kept();
    }
    i
}

/// Where the reference to a file stands.
proof fn lemma_reference_found(draft: DraftView, doc: TreeView, a: int, i: int) -> (j: int)
    requires
        markup::stands(doc, elements::signed_info(draft), a, 3),
        0 <= i < draft.files.len(),
    ensures
        doc.children(a, ns::DSIG@, "Reference"@).contains(j),
        doc.attribute(j, "Id"@) == Some(
            markup::read_text(template::reference_id(draft.id, i as nat)),
        ),
        !xades::covers_properties(doc, j),
{
    elements::lemma_prefixes();
    let list = elements::signed_info_parts(draft);
    let tag = elements::ds("SignedInfo"@, elements::bare());
    markup::lemma_children(doc, tag, list, a, 3, ns::DSIG@, "Reference"@);
    markup::lemma_content(doc, tag, list, a, 3);
    markup::lemma_member(doc, list, a + 1, 4, i + 2);
    let j = markup::place(list, a + 1, 4, i + 2);
    let id = template::reference_id(draft.id, i as nat);
    assert(list[i + 2] == elements::file_reference(id, draft.digest_uri, draft.files[i]));
    lemma_reference_read(doc, id, draft.digest_uri, draft.files[i], j);
    assert(markup::is_member(list, a, 3, ns::DSIG@, "Reference"@, j));
    j
}

/// The file of a format.
proof fn lemma_which_format(draft: DraftView, doc: TreeView, a: int, j: int) -> (i: int)
    requires
        markup::stands(doc, elements::object_properties(draft), a, 6),
        doc.children(a, ns::XADES@, "DataObjectFormat"@).contains(j),
    ensures
        0 <= i < draft.files.len(),
        markup::stands(
            doc,
            elements::file_format(template::reference_id(draft.id, i as nat), draft.files[i]),
            j,
            7,
        ),
{
    let list = elements::file_formats(draft.id, draft.files);
    let tag = elements::xa("SignedDataObjectProperties"@, elements::bare());
    markup::lemma_children(doc, tag, list, a, 6, ns::XADES@, "DataObjectFormat"@);
    markup::lemma_content(doc, tag, list, a, 6);
    let i = choose|i: int|
        0 <= i < list.len() && j == #[trigger] markup::place(list, a + 1, 7, i)
            && markup::is_named(list[i], ns::XADES@, "DataObjectFormat"@);
    markup::lemma_member(doc, list, a + 1, 7, i);
    i
}

/// Where the format of a file stands.
proof fn lemma_format_found(draft: DraftView, doc: TreeView, a: int, i: int) -> (j: int)
    requires
        markup::stands(doc, elements::object_properties(draft), a, 6),
        0 <= i < draft.files.len(),
    ensures
        doc.children(a, ns::XADES@, "DataObjectFormat"@).contains(j),
        doc.attribute(j, "ObjectReference"@) == Some(
            "#"@ + markup::read_text(template::reference_id(draft.id, i as nat)),
        ),
{
    elements::lemma_prefixes();
    let list = elements::file_formats(draft.id, draft.files);
    let tag = elements::xa("SignedDataObjectProperties"@, elements::bare());
    markup::lemma_children(doc, tag, list, a, 6, ns::XADES@, "DataObjectFormat"@);
    markup::lemma_content(doc, tag, list, a, 6);
    markup::lemma_member(doc, list, a + 1, 7, i);
    let j = markup::place(list, a + 1, 7, i);
    lemma_format_read(doc, template::reference_id(draft.id, i as nat), draft.files[i], j);
    assert(markup::is_member(list, a, 6, ns::XADES@, "DataObjectFormat"@, j));
    j
}

/// Each reference to a file has its format, and each format its reference.
proof fn lemma_no_warnings(draft: DraftView, doc: TreeView, info: int, props: int)
    requires
        markup::stands(doc, elements::signed_info(draft), info, 3),
        markup::stands(doc, elements::object_properties(draft), props, 6),
    ensures
        ({
            let references = doc.children(info, ns::DSIG@, "Reference"@);
            let formats = doc.children(props, ns::XADES@, "DataObjectFormat"@);
            &&& xades::references_warnings(doc, formats, references).len() == 0
            &&& xades::formats_warnings(doc, references, formats).len() == 0
        }),
{
    let references = doc.children(info, ns::DSIG@, "Reference"@);
    let formats = doc.children(props, ns::XADES@, "DataObjectFormat"@);
    assert forall|k: int| 0 <= k < references.len() implies (#[trigger] xades::reference_warnings(
        doc,
        formats,
        references[k],
    )).len() == 0 by {
        assert(references.contains(references[k]));
        let i = lemma_which_reference(draft, doc, info, references[k]);
        if i < draft.files.len() {
            let j = lemma_format_found(draft, doc, props, i);
            let n = formats.index_of(j);
            assert(doc.attribute(formats[n], "ObjectReference"@) == Some(
                "#"@ + markup::read_text(template::reference_id(draft.id, i as nat)),
            ));
        }
    }
    lemma_no_reference_warnings(doc, formats, references);
    assert forall|k: int| 0 <= k < formats.len() implies (#[trigger] xades::format_warnings(
        doc,
        references,
        formats[k],
    )).len() == 0 by {
        assert(formats.contains(formats[k]));
        let i = lemma_which_format(draft, doc, props, formats[k]);
        let id = template::reference_id(draft.id, i as nat);
        lemma_format_read(doc, id, draft.files[i], formats[k]);
        let j = lemma_reference_found(draft, doc, info, i);
        let n = references.index_of(j);
        assert(!xades::covers_properties(doc, references[n]));
        assert(xades::has_data_reference(doc, references, markup::read_text(id)));
    }
    lemma_no_format_warnings(doc, references, formats);
}

/// The profile of a signature: B without unsigned properties, T with a time-stamp, and LT with
/// OCSP responses as well.
pub open spec fn built_profile(unsigned: Option<UnsignedView>) -> Profile {
    match unsigned {
        None => Profile::B,
        Some(u) => if u.ocsp_values.len() == 0 {
            Profile::T
        } else {
            Profile::LT
        },
    }
}

proof fn lemma_profile(
    draft: DraftView,
    cert_digest: Seq<u8>,
    issuer_serial: Seq<u8>,
    doc: TreeView,
    qp: int,
)
    requires
        markup::stands(
            doc,
            elements::qualifying_properties(draft, cert_digest, issuer_serial),
            qp,
            4,
        ),
    ensures
        xades::declared_profile(
            doc,
            doc.child_of(
                doc.child(qp, ns::XADES@, "UnsignedProperties"@),
                ns::XADES@,
                "UnsignedSignatureProperties"@,
            ),
        ) == built_profile(draft.unsigned),
{
    elements::lemma_prefixes();
    lemma_different_names();
    let held = elements::qualifying_parts(draft, cert_digest, issuer_serial);
    let tag = elements::qualifying_properties(draft, cert_digest, issuer_serial).tag();
    match draft.unsigned {
        None => {
            markup::lemma_no_child(doc, tag, held, qp, 4, ns::XADES@, "UnsignedProperties"@);
        },
        Some(u) => {
            markup::lemma_child(doc, tag, held, qp, 4, ns::XADES@, "UnsignedProperties"@, 1);
            let up = markup::place(held, qp + 1, 5, 1);
            let inner = elements::unsigned_signature_properties(draft.id, u);
            let name = "UnsignedSignatureProperties"@;
            let up_tag = elements::xa("UnsignedProperties"@, elements::bare());
            markup::lemma_child(doc, up_tag, seq![inner], up, 5, ns::XADES@, name, 0);
            let usp = markup::place(seq![inner], up + 1, 6, 0);
            let parts = elements::unsigned_parts(draft.id, u);
            let usp_tag = elements::xa(name, elements::bare());
            let stamp = "SignatureTimeStamp"@;
            let values = "RevocationValues"@;
            markup::lemma_child(doc, usp_tag, parts, usp, 6, ns::XADES@, stamp, 0);
            if u.ocsp_values.len() == 0 {
                markup::lemma_no_child(doc, usp_tag, parts, usp, 6, ns::XADES@, values);
            } else {
                let last = parts.len() - 1;
                markup::lemma_child(doc, usp_tag, parts, usp, 6, ns::XADES@, values, last);
            }
        },
    }
}

/// The qualifying properties are for the signature that they are in.
pub(crate) proof fn lemma_target(
    draft: DraftView,
    cert_digest: Seq<u8>,
    issuer_serial: Seq<u8>,
    doc: TreeView,
    sig: int,
    qp: int,
)
    requires
        markup::stands(doc, elements::signature(draft, cert_digest, issuer_serial), sig, 2),
        markup::stands(
            doc,
            elements::qualifying_properties(draft, cert_digest, issuer_serial),
            qp,
            4,
        ),
        doc.descendants(sig, ns::XADES@, "QualifyingProperties"@) == seq![qp],
    ensures
        doc.attribute(sig, "Id"@) == Some(markup::read_text(draft.id)),
        xades::qualifying_node(doc, sig, qp + 1) == Some(qp),
        xades::target_errors(doc, sig, qp + 1) == Seq::<Seq<char>>::empty(),
{
    let m = elements::signature(draft, cert_digest, issuer_serial);
    let qualifying = elements::qualifying_properties(draft, cert_digest, issuer_serial);
    let held = elements::qualifying_parts(draft, cert_digest, issuer_serial);
    let list = doc.descendants(sig, ns::XADES@, "QualifyingProperties"@);
    markup::lemma_extent(doc, qualifying, qp, 4);
    markup::lemma_content(doc, qualifying.tag(), held, qp, 4);
    markup::lemma_member(doc, held, qp + 1, 5, 0);
    assert(doc.is_within(list[0], qp + 1));
    assert(xades::first_around(doc, list, qp + 1) == Some(qp));
    markup::lemma_attribute(doc, m, sig, 2, "Id"@);
    lemma_find_one("Id"@, draft.id, "Id"@);
    markup::lemma_attribute(doc, qualifying, qp, 4, "Target"@);
    lemma_find_one("Target"@, "#"@ + draft.id, "Target"@);
    lemma_hash(draft.id);
    assert(xades::target_matches(doc, sig, qp));
}

/// What the signed properties read as.
pub(crate) proof fn lemma_signed_read(
    draft: DraftView,
    cert_digest: Seq<u8>,
    issuer_serial: Seq<u8>,
    doc: TreeView,
    sp: int,
)
    requires
        markup::stands(doc, elements::signed_properties(draft, cert_digest, issuer_serial), sp, 5),
    ensures
        doc.child(sp, ns::XADES@, "SignedSignatureProperties"@) matches Some(ssp)
            && xades::claimed_time(doc, ssp) == Some(markup::read_text(draft.signing_time))
            && markup::stands(
            doc,
            elements::signature_properties(draft, cert_digest, issuer_serial),
            ssp,
            6,
        ),
        doc.child(sp, ns::XADES@, "SignedDataObjectProperties"@) matches Some(sdop)
            && markup::stands(doc, elements::object_properties(draft), sdop, 6),
{
    elements::lemma_prefixes();
    lemma_different_names();
    let tag = elements::signed_properties(draft, cert_digest, issuer_serial).tag();
    let parts = elements::signed_parts(draft, cert_digest, issuer_serial);
    let first = "SignedSignatureProperties"@;
    let second = "SignedDataObjectProperties"@;
    markup::lemma_child(doc, tag, parts, sp, 5, ns::XADES@, first, 0);
    markup::lemma_child(doc, tag, parts, sp, 5, ns::XADES@, second, 1);
    let ssp = markup::place(parts, sp + 1, 6, 0);
    let time = Markup::Leaf(elements::xa("SigningTime"@, elements::bare()), draft.signing_time);
    let bound = elements::signing_certificate(draft.digest_uri, cert_digest, issuer_serial);
    let inner = seq![time, bound];
    let first_tag = elements::xa(first, elements::bare());
    markup::lemma_child(doc, first_tag, inner, ssp, 6, ns::XADES@, "SigningTime"@, 0);
    let at = markup::place(inner, ssp + 1, 7, 0);
    markup::lemma_leaf(doc, time.tag(), draft.signing_time, at, 7);
}

/// What the property that binds the signing certificate reads as.
proof fn lemma_certificate_read(
    draft: DraftView,
    cert_digest: Seq<u8>,
    issuer_serial: Seq<u8>,
    doc: TreeView,
    ssp: int,
)
    requires
        markup::stands(
            doc,
            elements::signature_properties(draft, cert_digest, issuer_serial),
            ssp,
            6,
        ),
    ensures
        doc.child_of(xades::certificate_property(doc, ssp), ns::XADES@, "Cert"@) matches Some(cert)
            && ({
            let node = doc.child(cert, ns::XADES@, "CertDigest"@);
            &&& xades::certificate_digest_method(doc, node) == markup::read_text(draft.digest_uri)
            &&& xades::certificate_digest_value(doc, node) == codec::embedded_base64(
                markup::read_text(codec::base64_encoded(cert_digest)),
            )
        }),
{
    elements::lemma_prefixes();
    lemma_different_names();
    let xs = ns::XADES@;
    let tag = elements::xa("SignedSignatureProperties"@, elements::bare());
    let time = Markup::Leaf(elements::xa("SigningTime"@, elements::bare()), draft.signing_time);
    let bound = elements::signing_certificate(draft.digest_uri, cert_digest, issuer_serial);
    let parts = seq![time, bound];
    markup::lemma_no_child(doc, tag, parts, ssp, 6, xs, "SigningCertificate"@);
    markup::lemma_child(doc, tag, parts, ssp, 6, xs, "SigningCertificateV2"@, 1);
    let property = markup::place(parts, ssp + 1, 7, 1);
    let method = elements::algorithm("DigestMethod"@, draft.digest_uri);
    let value = elements::bytes(elements::ds("DigestValue"@, elements::bare()), cert_digest);
    let digest = Markup::Parent(elements::xa("CertDigest"@, elements::bare()), seq![method, value]);
    let serial = elements::bytes(elements::xa("IssuerSerialV2"@, elements::bare()), issuer_serial);
    let cert = Markup::Parent(elements::xa("Cert"@, elements::bare()), seq![digest, serial]);
    markup::lemma_child(doc, bound.tag(), seq![cert], property, 7, xs, "Cert"@, 0);
    let c = markup::place(seq![cert], property + 1, 8, 0);
    markup::lemma_child(doc, cert.tag(), seq![digest, serial], c, 8, xs, "CertDigest"@, 0);
    let d = markup::place(seq![digest, serial], c + 1, 9, 0);
    let pair = seq![method, value];
    markup::lemma_child(doc, digest.tag(), pair, d, 9, ns::DSIG@, "DigestMethod"@, 0);
    markup::lemma_child(doc, digest.tag(), pair, d, 9, ns::DSIG@, "DigestValue"@, 1);
    markup::lemma_attribute(doc, method, markup::place(pair, d + 1, 10, 0), 10, "Algorithm"@);
    lemma_find_one("Algorithm"@, draft.digest_uri, "Algorithm"@);
    markup::lemma_leaf(
        doc,
        value.tag(),
        codec::base64_encoded(cert_digest),
        markup::place(pair, d + 1, 10, 1),
        10,
    );
}

/// Where the signed information stands.
pub(crate) proof fn lemma_info_read(
    draft: DraftView,
    cert_digest: Seq<u8>,
    issuer_serial: Seq<u8>,
    doc: TreeView,
    sig: int,
)
    requires
        markup::stands(doc, elements::signature(draft, cert_digest, issuer_serial), sig, 2),
    ensures
        doc.child(sig, ns::DSIG@, "SignedInfo"@) matches Some(info) && markup::stands(
            doc,
            elements::signed_info(draft),
            info,
            3,
        ),
{
    elements::lemma_prefixes();
    let tag = elements::signature(draft, cert_digest, issuer_serial).tag();
    let parts = elements::signature_parts(draft, cert_digest, issuer_serial);
    markup::lemma_child(doc, tag, parts, sig, 2, ns::DSIG@, "SignedInfo"@, 0);
}

/// A built document is written from nested elements, and so it parses.
pub proof fn built_document_is_written(draft: DraftView, source: Seq<char>)
    requires
        template::document_outcome(draft) == Ok::<Seq<char>, ErrorView>(source),
    ensures
        input::is_written(source),
{
    let cert_digest = template::certificate_digest(draft);
    let issuer_serial = x509::issuer_serial_outcome(draft.cert_der)->Ok_0;
    let content = seq![elements::signature(draft, cert_digest, issuer_serial)];
    elements::document_is_written_from_elements(draft, cert_digest, issuer_serial);
    elements::lemma_signature_sound(draft, cert_digest, issuer_serial, 127);
    markup::lemma_sound_members(content, 127);
    assert(markup::document_text(content) == source);
}

/// A built document that is parsed again holds one signature with one set of signed properties.
pub proof fn built_document_holds_one_signature(draft: DraftView, doc: TreeView)
    requires
        template::document_outcome(draft) == Ok::<Seq<char>, ErrorView>(doc.source),
        markup::reads_as_written(doc),
    ensures
        ({
            let signatures = doc.descendants(0, ns::DSIG@, "Signature"@);
            &&& signatures.len() == 1
            &&& doc.descendants(signatures[0], ns::XADES@, "SignedProperties"@).len() == 1
        }),
{
    let cert_digest = template::certificate_digest(draft);
    let issuer_serial = x509::issuer_serial_outcome(draft.cert_der)->Ok_0;
    lemma_found(draft, cert_digest, issuer_serial, doc);
}

/// A built document that is parsed again reads as it was built: its signature has the identifier,
/// its qualifying properties are for that signature, the signing time is the one of the draft, the
/// profile follows from the unsigned properties, and there is nothing odd about the formats of
/// the data objects.
///
/// Characters that may not occur in a document have been replaced in it.
pub proof fn built_document_reads_back(
    draft: DraftView,
    doc: TreeView,
    sig: int,
    sp: int,
    cert_der: Seq<u8>,
)
    requires
        template::document_outcome(draft) == Ok::<Seq<char>, ErrorView>(doc.source),
        markup::reads_as_written(doc),
        doc.descendants(0, ns::DSIG@, "Signature"@).contains(sig),
        doc.descendants(sig, ns::XADES@, "SignedProperties"@).contains(sp),
    ensures
        ({
            let read = xades::signed_properties_outcome(doc, sig, sp, cert_der);
            &&& doc.attribute(sig, "Id"@) == Some(markup::read_text(draft.id))
            &&& xades::target_errors(doc, sig, sp) == Seq::<Seq<char>>::empty()
            &&& read.claimed_signing_time == Some(markup::read_text(draft.signing_time))
            &&& markup::is_proper(draft.signing_time) ==> read.claimed_signing_time == Some(
                draft.signing_time,
            )
            &&& read.profile == built_profile(draft.unsigned)
            &&& read.warnings == xades::data_object_warnings(doc, sig, sp)
            &&& read.warnings == Seq::<Seq<char>>::empty()
        }),
{
    let cert_digest = template::certificate_digest(draft);
    let issuer_serial = x509::issuer_serial_outcome(draft.cert_der)->Ok_0;
    lemma_found(draft, cert_digest, issuer_serial, doc);
    let qp = object_place(draft, cert_digest, issuer_serial) + 1;
    lemma_target(draft, cert_digest, issuer_serial, doc, sig, qp);
    lemma_profile(draft, cert_digest, issuer_serial, doc, qp);
    lemma_signed_read(draft, cert_digest, issuer_serial, doc, sp);
    lemma_info_read(draft, cert_digest, issuer_serial, doc, sig);
    lemma_no_warnings(
        draft,
        doc,
        doc.child(sig, ns::DSIG@, "SignedInfo"@)->Some_0,
        doc.child(sp, ns::XADES@, "SignedDataObjectProperties"@)->Some_0,
    );
    assert(xades::data_object_warnings(doc, sig, sp) =~= Seq::<Seq<char>>::empty());
    if markup::is_proper(draft.signing_time) {
        markup::proper_text_is_kept(draft.signing_time);
    }
}

/// A built document that is parsed again binds the certificate that it was built for: where the
/// digest is by a method that validation accepts and the signing time is one, nothing is wrong
/// with its qualifying properties.
pub proof fn built_document_binds_its_certificate(
    draft: DraftView,
    doc: TreeView,
    sig: int,
    sp: int,
)
    requires
        template::document_outcome(draft) == Ok::<Seq<char>, ErrorView>(doc.source),
        codec::reads_back(template::certificate_digest(draft)),
        markup::reads_as_written(doc),
        doc.descendants(0, ns::DSIG@, "Signature"@).contains(sig),
        doc.descendants(sig, ns::XADES@, "SignedProperties"@).contains(sp),
        digest::is_allowed(draft.digest_uri),
        xades::is_rfc3339(markup::read_text(draft.signing_time)),
    ensures
        xades::signed_properties_outcome(doc, sig, sp, draft.cert_der).errors == Seq::<
            Seq<char>,
        >::empty(),
{
    let cert_digest = template::certificate_digest(draft);
    let issuer_serial = x509::issuer_serial_outcome(draft.cert_der)->Ok_0;
    built_document_reads_back(draft, doc, sig, sp, draft.cert_der);
    lemma_found(draft, cert_digest, issuer_serial, doc);
    lemma_signed_read(draft, cert_digest, issuer_serial, doc, sp);
    let ssp = doc.child(sp, ns::XADES@, "SignedSignatureProperties"@)->Some_0;
    lemma_certificate_read(draft, cert_digest, issuer_serial, doc, ssp);
    lemma_method_kept(draft.digest_uri);
    assert(xades::certificate_errors(doc, ssp, draft.cert_der) =~= Seq::<Seq<char>>::empty());
}

/// What a time-stamp of a signature covers: the signature value in canonical form.
pub open spec fn covered_text(draft: DraftView, method: Seq<char>) -> Seq<char> {
    markup::canonical_leaf(
        elements::signature_value(draft).tag(),
        match draft.signature_value {
            Some(value) => codec::base64_encoded(value),
            None => Seq::empty(),
        },
        C14nMethod::is_exclusive(method),
    )
}

/// Where the signature value stands.
pub(crate) proof fn lemma_value_read(
    draft: DraftView,
    cert_digest: Seq<u8>,
    issuer_serial: Seq<u8>,
    doc: TreeView,
    sig: int,
)
    requires
        markup::stands(doc, elements::signature(draft, cert_digest, issuer_serial), sig, 2),
    ensures
        doc.child(sig, ns::DSIG@, "SignatureValue"@) matches Some(value) && markup::stands(
            doc,
            elements::signature_value(draft),
            value,
            3,
        ),
{
    elements::lemma_prefixes();
    reveal_strlit("SignedInfo");
    reveal_strlit("SignatureValue");
    assert("SignedInfo"@.len() == 10 && "SignatureValue"@.len() == 14);
    let tag = elements::signature(draft, cert_digest, issuer_serial).tag();
    let parts = elements::signature_parts(draft, cert_digest, issuer_serial);
    markup::lemma_child(doc, tag, parts, sig, 2, ns::DSIG@, "SignatureValue"@, 1);
}

/// The signature value of a built document that is parsed again has the canonical form that its
/// draft gives. Of the draft, only the identifier and the signature value count.
pub proof fn built_signature_value_is_covered(
    draft: DraftView,
    doc: TreeView,
    sig: int,
    method: Seq<char>,
)
    requires
        template::document_outcome(draft) == Ok::<Seq<char>, ErrorView>(doc.source),
        markup::reads_as_written(doc),
        doc.descendants(0, ns::DSIG@, "Signature"@).contains(sig),
        doc.child(sig, ns::DSIG@, "SignatureValue"@) matches Some(value)
            ==> doc.leaf_is_canonical(value, method),
    ensures
        ltv::timestamped_bytes(doc, sig, method) == Ok::<Seq<u8>, Seq<char>>(
            utf8::encode_utf8(covered_text(draft, method)),
        ),
{
    let cert_digest = template::certificate_digest(draft);
    let issuer_serial = x509::issuer_serial_outcome(draft.cert_der)->Ok_0;
    lemma_found(draft, cert_digest, issuer_serial, doc);
    lemma_value_read(draft, cert_digest, issuer_serial, doc, sig);
    let value = doc.child(sig, ns::DSIG@, "SignatureValue"@)->Some_0;
    elements::lemma_prefixes();
    assert(elements::signature_value(draft) == Markup::Leaf(
        elements::signature_value(draft).tag(),
        match draft.signature_value {
            Some(d) => codec::base64_encoded(d),
            None => Seq::empty(),
        },
    ));
}

/// Unsigned properties change nothing of what a time-stamp covers: it is the same in the document
/// of a signature and in the document of the signature with a time-stamp, responses and
/// certificates added.
pub proof fn extension_keeps_what_is_covered(
    draft: DraftView,
    unsigned: Option<UnsignedView>,
    doc: TreeView,
    sig: int,
    later: TreeView,
    later_sig: int,
    method: Seq<char>,
)
    requires
        template::document_outcome(draft) == Ok::<Seq<char>, ErrorView>(doc.source),
        template::document_outcome((DraftView { unsigned, ..draft })) == Ok::<
            Seq<char>,
            ErrorView,
        >(later.source),
        markup::reads_as_written(doc),
        markup::reads_as_written(later),
        doc.descendants(0, ns::DSIG@, "Signature"@).contains(sig),
        later.descendants(0, ns::DSIG@, "Signature"@).contains(later_sig),
        doc.child(sig, ns::DSIG@, "SignatureValue"@) matches Some(value)
            ==> doc.leaf_is_canonical(value, method),
        later.child(later_sig, ns::DSIG@, "SignatureValue"@) matches Some(value)
            ==> later.leaf_is_canonical(value, method),
    ensures
        ltv::timestamped_bytes(doc, sig, method) == ltv::timestamped_bytes(
            later,
            later_sig,
            method,
        ),
{
    built_signature_value_is_covered(draft, doc, sig, method);
    built_signature_value_is_covered(
        (DraftView { unsigned, ..draft }),
        later,
        later_sig,
        method,
    );
}

proof fn lemma_c14n_kept(uri: Seq<char>)
    requires
        C14nMethod::is_uri(uri),
    ensures
        markup::read_text(uri) == uri,
{
    assert(proper_from(uri, 0)) by {
        reveal_strlit("http://www.w3.org/TR/2001/REC-xml-c14n-20010315");
        reveal_strlit("http://www.w3.org/TR/2001/REC-xml-c14n-20010315#WithComments");
        reveal_strlit("http://www.w3.org/2006/12/xml-c14n11");
        reveal_strlit("http://www.w3.org/2006/12/xml-c14n11#WithComments");
        reveal_strlit("http://www.w3.org/2001/10/xml-exc-c14n#");
        reveal_strlit("http://www.w3.org/2001/10/xml-exc-c14n#WithComments");
        reveal_with_fuel(proper_from, 65);
        assert(proper_from(input::C14N@, 0));
        assert(proper_from(input::C14N_WITH_COMMENTS@, 0));
        assert(proper_from(input::C14N11@, 0));
        assert(proper_from(input::C14N11_WITH_COMMENTS@, 0));
        assert(proper_from(input::EXC_C14N@, 0));
        assert(proper_from(input::EXC_C14N_WITH_COMMENTS@, 0));
    }
    lemma_proper_text(uri);
}

/// What a time-stamp reads as.
proof fn lemma_stamp_read(doc: TreeView, id: Seq<char>, u: UnsignedView, tst: int)
    requires
        markup::stands(doc, elements::signature_timestamp(id, u), tst, 7),
        C14nMethod::is_uri(u.timestamp_c14n_uri),
        codec::reads_back(u.timestamp_der),
    ensures
        ltv::token_of(doc, tst) == Some(u.timestamp_der),
        ltv::timestamp_method(doc, tst) == Ok::<Seq<char>, Seq<char>>(u.timestamp_c14n_uri),
{
    elements::lemma_prefixes();
    reveal_strlit("CanonicalizationMethod");
    reveal_strlit("EncapsulatedTimeStamp");
    assert("CanonicalizationMethod"@.len() == 22 && "EncapsulatedTimeStamp"@.len() == 21);
    let tag = elements::signature_timestamp(id, u).tag();
    let method = elements::algorithm("CanonicalizationMethod"@, u.timestamp_c14n_uri);
    let stamp = elements::bytes(
        elements::xa("EncapsulatedTimeStamp"@, elements::bare()),
        u.timestamp_der,
    );
    let pair = seq![method, stamp];
    markup::lemma_child(doc, tag, pair, tst, 7, ns::DSIG@, "CanonicalizationMethod"@, 0);
    markup::lemma_child(doc, tag, pair, tst, 7, ns::XADES@, "EncapsulatedTimeStamp"@, 1);
    let m = markup::place(pair, tst + 1, 8, 0);
    markup::lemma_attribute(doc, method, m, 8, "Algorithm"@);
    lemma_find_one("Algorithm"@, u.timestamp_c14n_uri, "Algorithm"@);
    lemma_c14n_kept(u.timestamp_c14n_uri);
    markup::lemma_leaf(
        doc,
        stamp.tag(),
        codec::base64_encoded(u.timestamp_der),
        markup::place(pair, tst + 1, 8, 1),
        8,
    );
}

/// The one time-stamp among unsigned properties.
pub(crate) proof fn lemma_one_stamp(
    doc: TreeView,
    id: Seq<char>,
    u: UnsignedView,
    usp: int,
) -> (tst: int)
    requires
        markup::stands(doc, elements::unsigned_signature_properties(id, u), usp, 6),
    ensures
        markup::stands(doc, elements::signature_timestamp(id, u), tst, 7),
        doc.children(usp, ns::XADES@, "SignatureTimeStamp"@) == seq![tst],
{
    elements::lemma_prefixes();
    lemma_different_names();
    let stamp = "SignatureTimeStamp"@;
    reveal_strlit("SignatureTimeStamp");
    reveal_strlit("CertificateValues");
    assert(stamp.len() == 18 && "CertificateValues"@.len() == 17);
    let tag = elements::xa("UnsignedSignatureProperties"@, elements::bare());
    let parts = elements::unsigned_parts(id, u);
    markup::lemma_child(doc, tag, parts, usp, 6, ns::XADES@, stamp, 0);
    markup::lemma_children(doc, tag, parts, usp, 6, ns::XADES@, stamp);
    let tst = markup::place(parts, usp + 1, 7, 0);
    let found = doc.children(usp, ns::XADES@, stamp);
    assert forall|j: int| #[trigger] found.contains(j) implies j == tst by {
        let k = choose|k: int|
            0 <= k < parts.len() && j == #[trigger] markup::place(parts, usp + 1, 7, k)
                && markup::is_named(parts[k], ns::XADES@, stamp);
        assert(k == 0);
    }
    tree::matching_is_exact(
        doc.nodes.len() as int,
        |j: int| doc.is_child(usp, j) && doc.nodes[j].is_element(ns::XADES@, stamp),
    );
    assert(found.contains(found[0]));
    if found.len() > 1 {
        assert(found.contains(found[1]));
        assert(found[0] < found[1]);
    }
    assert(found =~= seq![tst]);
    tst
}

/// Validation holds the time-stamp of a built document against the bytes that a time-stamp of the
/// signature covers: it finds one time-stamp, with the token that was added, and checks the token
/// over the canonical form of the signature value.
pub proof fn built_timestamp_is_held_against_what_it_covers(
    draft: DraftView,
    u: UnsignedView,
    doc: TreeView,
    sig: int,
    sp: int,
    anchors: Seq<Seq<u8>>,
    extra_certs: Seq<Seq<u8>>,
)
    requires
        template::document_outcome(draft) == Ok::<Seq<char>, ErrorView>(doc.source),
        draft.unsigned == Some(u),
        C14nMethod::is_uri(u.timestamp_c14n_uri),
        codec::reads_back(u.timestamp_der),
        markup::reads_as_written(doc),
        doc.descendants(0, ns::DSIG@, "Signature"@).contains(sig),
        doc.descendants(sig, ns::XADES@, "SignedProperties"@).contains(sp),
        doc.child(sig, ns::DSIG@, "SignatureValue"@) matches Some(value)
            ==> doc.leaf_is_canonical(value, u.timestamp_c14n_uri),
    ensures
        xades::unsigned_node(doc, sig, sp) matches Some(unsigned) && ltv::timestamp_outcomes(
            doc,
            sig,
            doc.children(unsigned, ns::XADES@, "SignatureTimeStamp"@),
            anchors,
            extra_certs,
        ) == seq![
            ltv::token_outcome(
                u.timestamp_der,
                utf8::encode_utf8(covered_text(draft, u.timestamp_c14n_uri)),
                anchors,
                extra_certs,
            ),
        ],
{
    let cert_digest = template::certificate_digest(draft);
    let issuer_serial = x509::issuer_serial_outcome(draft.cert_der)->Ok_0;
    lemma_found(draft, cert_digest, issuer_serial, doc);
    let qp = object_place(draft, cert_digest, issuer_serial) + 1;
    lemma_target(draft, cert_digest, issuer_serial, doc, sig, qp);
    built_signature_value_is_covered(draft, doc, sig, u.timestamp_c14n_uri);
    elements::lemma_prefixes();
    lemma_different_names();
    let held = elements::qualifying_parts(draft, cert_digest, issuer_serial);
    let tag = elements::qualifying_properties(draft, cert_digest, issuer_serial).tag();
    markup::lemma_child(doc, tag, held, qp, 4, ns::XADES@, "UnsignedProperties"@, 1);
    let up = markup::place(held, qp + 1, 5, 1);
    let inner = elements::unsigned_signature_properties(draft.id, u);
    let name = "UnsignedSignatureProperties"@;
    let up_tag = elements::xa("UnsignedProperties"@, elements::bare());
    markup::lemma_child(doc, up_tag, seq![inner], up, 5, ns::XADES@, name, 0);
    let usp = markup::place(seq![inner], up + 1, 6, 0);
    let tst = lemma_one_stamp(doc, draft.id, u, usp);
    lemma_stamp_read(doc, draft.id, u, tst);
    assert(ltv::timestamp_outcomes(doc, sig, seq![tst], anchors, extra_certs) =~= seq![
        ltv::timestamp_outcome(doc, sig, tst, anchors, extra_certs),
    ]);
}

} // verus!
