//! What stands in a signature document, told by the document that is parsed again.
use vstd::prelude::*;
use vstd::string::*;

use crate::codec;
use crate::crypto::digest;
use crate::error::{ErrorView, LibError};
use crate::ns;
use crate::sig::elements;
use crate::sig::lt::{CreatedSignature, StatusRequest};
use crate::sig::readback;
use crate::sig::template;
use crate::sig::template::{DraftView, FileView, UnsignedView};
use crate::text;
use crate::time::Time;
use crate::validate::ltv;
use crate::x509;
use crate::xml::input::C14nMethod;
use crate::xml::markup;
use crate::xml::markup::{Markup, Shape, Tag};
use crate::xml::tree;
use crate::xml::tree::TreeView;

verus! {

proof fn lemma_same_ascending(a: Seq<int>, b: Seq<int>)
    requires
        forall|i: int, k: int| 0 <= i < k < a.len() ==> a[i] < a[k],
        forall|i: int, k: int| 0 <= i < k < b.len() ==> b[i] < b[k],
        forall|j: int| a.contains(j) <==> b.contains(j),
    ensures
        a == b,
    decreases a.len(),
{
    if a.len() == 0 {
        if b.len() > 0 {
            assert(b.contains(b[0]));
            assert(a.contains(b[0]));
        }
        assert(a =~= b);
    } else if b.len() == 0 {
        assert(a.contains(a[0]));
        assert(b.contains(a[0]));
    } else {
        let (x, y) = (a[a.len() - 1], b[b.len() - 1]);
        assert(a.contains(x) && b.contains(y));
        let k = b.index_of(x);
        let m = a.index_of(y);
        assert(x == y);
        let (front, other) = (a.drop_last(), b.drop_last());
        assert forall|j: int| front.contains(j) <==> other.contains(j) by {
            if front.contains(j) {
                let i = front.index_of(j);
                assert(a[i] == j);
                assert(a.contains(j));
                let n = b.index_of(j);
                assert(n < other.len());
                assert(other[n] == j);
            }
            if other.contains(j) {
                let i = other.index_of(j);
                assert(b[i] == j);
                assert(b.contains(j));
                let n = a.index_of(j);
                assert(n < front.len());
                assert(front[n] == j);
            }
        }
        lemma_same_ascending(front, other);
        assert(a =~= front.push(x));
        assert(b =~= other.push(y));
    }
}

/// The places of some members of a list.
spec fn places(list: Seq<Markup>, a: int, depth: nat, first: int, n: nat) -> Seq<int> {
    Seq::new(n, |i: int| markup::place(list, a, depth, first + i))
}

proof fn lemma_places(list: Seq<Markup>, a: int, depth: nat, first: int, n: nat)
    requires
        0 <= first,
        first + n <= list.len(),
    ensures
        forall|i: int, k: int|
            0 <= i < k < n ==> places(list, a, depth, first, n)[i] < places(
                list,
                a,
                depth,
                first,
                n,
            )[k],
{
    let all = places(list, a, depth, first, n);
    assert forall|i: int, k: int| 0 <= i < k < n implies all[i] < all[k] by {
        markup::lemma_places_ascend(list, a, depth, first + i, first + k);
    }
}

/// The elements of one name directly inside an element, where they stand in a row.
proof fn lemma_row(
    doc: TreeView,
    tag: Tag,
    list: Seq<Markup>,
    a: int,
    depth: nat,
    ns: Seq<char>,
    local: Seq<char>,
    first: int,
    n: nat,
)
    requires
        markup::stands(doc, Markup::Parent(tag, list), a, depth),
        0 <= first,
        first + n <= list.len(),
        forall|k: int|
            0 <= k < list.len() ==> (markup::is_named(#[trigger] list[k], ns, local) <==> first <= k
                < first + n),
    ensures
        doc.children(a, ns, local).len() == n,
        forall|i: int|
            0 <= i < n ==> #[trigger] doc.children(a, ns, local)[i] == markup::place(
                list,
                a + 1,
                depth + 1,
                first + i,
            ) && markup::stands(
                doc,
                list[first + i],
                doc.children(a, ns, local)[i],
                depth + 1,
            ),
{
    let found = doc.children(a, ns, local);
    let all = places(list, a + 1, depth + 1, first, n);
    markup::lemma_children(doc, tag, list, a, depth, ns, local);
    markup::lemma_content(doc, tag, list, a, depth);
    lemma_places(list, a + 1, depth + 1, first, n);
    tree::matching_is_exact(
        doc.nodes.len() as int,
        |j: int| doc.is_child(a, j) && doc.nodes[j].is_element(ns, local),
    );
    assert forall|j: int| found.contains(j) <==> all.contains(j) by {
        if found.contains(j) {
            let k = choose|k: int|
                0 <= k < list.len() && j == #[trigger] markup::place(list, a + 1, depth + 1, k)
                    && markup::is_named(list[k], ns, local);
            assert(all[k - first] == j);
        }
        if all.contains(j) {
            let i = all.index_of(j);
            assert(j == markup::place(list, a + 1, depth + 1, first + i));
            assert(markup::is_named(list[first + i], ns, local));
            assert(markup::is_member(list, a, depth, ns, local, j));
        }
    }
    lemma_same_ascending(found, all);
    assert forall|i: int| 0 <= i < n implies #[trigger] found[i] == markup::place(
        list,
        a + 1,
        depth + 1,
        first + i,
    ) && markup::stands(doc, list[first + i], found[i], depth + 1) by {
        markup::lemma_member(doc, list, a + 1, depth + 1, first + i);
    }
}

/// Whether a node holds some bytes as base64 text.
pub open spec fn holds_bytes(doc: TreeView, node: Option<int>, data: Seq<u8>) -> bool {
    &&& node is Some
    &&& doc.text(node->Some_0) == markup::read_text(codec::base64_encoded(data))
    &&& codec::reads_back(data) ==> codec::embedded_base64(doc.text(node->Some_0)) == Some(data)
}

/// Whether a node holds some bytes as base64 text, or no text where there are none.
pub open spec fn holds_any(doc: TreeView, node: Option<int>, data: Option<Seq<u8>>) -> bool {
    match data {
        Some(d) => holds_bytes(doc, node, d),
        None => node is Some && doc.text(node->Some_0) == Seq::<char>::empty(),
    }
}

/// Whether a node names a method.
pub open spec fn names_method(doc: TreeView, node: Option<int>, uri: Seq<char>) -> bool {
    node is Some && doc.attribute(node->Some_0, "Algorithm"@) == Some(markup::read_text(uri))
}

/// Whether a node holds a digest with its method.
pub open spec fn holds_digest(
    doc: TreeView,
    node: int,
    uri: Seq<char>,
    digest: Option<Seq<u8>>,
) -> bool {
    &&& names_method(doc, doc.child(node, ns::DSIG@, "DigestMethod"@), uri)
    &&& holds_any(doc, doc.child(node, ns::DSIG@, "DigestValue"@), digest)
}

proof fn lemma_method(doc: TreeView, local: Seq<char>, uri: Seq<char>, a: int, depth: nat)
    requires
        markup::stands(doc, elements::algorithm(local, uri), a, depth),
    ensures
        doc.attribute(a, "Algorithm"@) == Some(markup::read_text(uri)),
{
    markup::lemma_attribute(doc, elements::algorithm(local, uri), a, depth, "Algorithm"@);
    readback::lemma_find_one("Algorithm"@, uri, "Algorithm"@);
}

proof fn lemma_any(doc: TreeView, tag: Tag, data: Option<Seq<u8>>, a: int, depth: nat)
    requires
        markup::stands(doc, elements::opt_bytes(tag, data), a, depth),
    ensures
        holds_any(doc, Some(a), data),
{
    let text = match data {
        Some(d) => codec::base64_encoded(d),
        None => Seq::empty(),
    };
    markup::lemma_leaf(doc, tag, text, a, depth);
    assert(markup::read_text(Seq::<char>::empty()) =~= Seq::<char>::empty());
}

proof fn lemma_digest(
    doc: TreeView,
    tag: Tag,
    uri: Seq<char>,
    digest: Option<Seq<u8>>,
    a: int,
    depth: nat,
)
    requires
        markup::stands(
            doc,
            Markup::Parent(
                tag,
                seq![
                    elements::algorithm("DigestMethod"@, uri),
                    elements::opt_bytes(elements::ds("DigestValue"@, elements::bare()), digest),
                ],
            ),
            a,
            depth,
        ),
    ensures
        holds_digest(doc, a, uri, digest),
{
    elements::lemma_prefixes();
    readback::lemma_different_names();
    let method = elements::algorithm("DigestMethod"@, uri);
    let value_tag = elements::ds("DigestValue"@, elements::bare());
    let value = elements::opt_bytes(value_tag, digest);
    let pair = seq![method, value];
    markup::lemma_child(doc, tag, pair, a, depth, ns::DSIG@, "DigestMethod"@, 0);
    markup::lemma_child(doc, tag, pair, a, depth, ns::DSIG@, "DigestValue"@, 1);
    lemma_method(
        doc,
        "DigestMethod"@,
        uri,
        markup::place(pair, a + 1, depth + 1, 0),
        depth + 1,
    );
    lemma_any(doc, value_tag, digest, markup::place(pair, a + 1, depth + 1, 1), depth + 1);
}

/// Whether a node refers to a file: by its URI, with the digest of its content.
pub open spec fn refers_to(doc: TreeView, node: int, file: FileView, uri: Seq<char>) -> bool {
    &&& doc.attribute(node, "URI"@) == Some(markup::read_text(file.uri))
    &&& doc.attribute(node, "Type"@) is None
    &&& holds_digest(doc, node, uri, Some(file.digest))
}

/// What a reference to a file reads as.
proof fn lemma_file_reference(
    doc: TreeView,
    id: Seq<char>,
    uri: Seq<char>,
    file: FileView,
    a: int,
)
    requires
        markup::stands(doc, elements::file_reference(id, uri, file), a, 4),
    ensures
        refers_to(doc, a, file, uri),
        doc.attribute(a, "Id"@) == Some(markup::read_text(id)),
{
    elements::lemma_keys();
    let m = elements::file_reference(id, uri, file);
    markup::lemma_attribute(doc, m, a, 4, "Id"@);
    markup::lemma_attribute(doc, m, a, 4, "URI"@);
    markup::lemma_attribute(doc, m, a, 4, "Type"@);
    readback::lemma_find_two(("Id"@, id), ("URI"@, file.uri), "Id"@);
    readback::lemma_find_two(("Id"@, id), ("URI"@, file.uri), "URI"@);
    readback::lemma_find_two(("Id"@, id), ("URI"@, file.uri), "Type"@);
    lemma_digest(doc, m.tag(), uri, Some(file.digest), a, 4);
}

/// Whether a node refers to the signed properties of an identifier.
pub open spec fn refers_to_properties(
    doc: TreeView,
    node: int,
    id: Seq<char>,
    uri: Seq<char>,
    digest: Option<Seq<u8>>,
) -> bool {
    &&& doc.attribute(node, "Type"@) == Some("http://uri.etsi.org/01903#SignedProperties"@)
    &&& doc.attribute(node, "URI"@) == Some(seq!['#'] + id)
    &&& holds_digest(doc, node, uri, digest)
}

proof fn lemma_properties_reference(doc: TreeView, draft: DraftView, a: int)
    requires
        markup::stands(doc, elements::properties_reference(draft), a, 4),
    ensures
        refers_to_properties(
            doc,
            a,
            markup::read_text(draft.signed_properties_id()),
            draft.digest_uri,
            draft.signed_props_digest,
        ),
{
    elements::lemma_keys();
    let m = elements::properties_reference(draft);
    let own = draft.signed_properties_id();
    let kind = ("Type"@, ns::TYPE_SIGNED_PROPERTIES@);
    markup::lemma_attribute(doc, m, a, 4, "URI"@);
    markup::lemma_attribute(doc, m, a, 4, "Type"@);
    readback::lemma_find_two(kind, ("URI"@, "#"@ + own), "URI"@);
    readback::lemma_find_two(kind, ("URI"@, "#"@ + own), "Type"@);
    readback::lemma_type_kept();
    readback::lemma_hash(own);
    lemma_hash_sign();
    lemma_digest(doc, m.tag(), draft.digest_uri, draft.signed_props_digest, a, 4);
}

proof fn lemma_methods(doc: TreeView, draft: DraftView, info: int)
    requires
        markup::stands(doc, elements::signed_info(draft), info, 3),
    ensures
        names_method(
            doc,
            doc.child(info, ns::DSIG@, "CanonicalizationMethod"@),
            draft.c14n_uri,
        ),
        names_method(doc, doc.child(info, ns::DSIG@, "SignatureMethod"@), draft.sig_method_uri),
{
    elements::lemma_prefixes();
    lemma_info_names();
    let parts = elements::signed_info_parts(draft);
    let tag = elements::ds("SignedInfo"@, elements::bare());
    let first = "CanonicalizationMethod"@;
    let second = "SignatureMethod"@;
    markup::lemma_child(doc, tag, parts, info, 3, ns::DSIG@, first, 0);
    markup::lemma_child(doc, tag, parts, info, 3, ns::DSIG@, second, 1);
    lemma_method(doc, first, draft.c14n_uri, markup::place(parts, info + 1, 4, 0), 4);
    lemma_method(doc, second, draft.sig_method_uri, markup::place(parts, info + 1, 4, 1), 4);
}

proof fn lemma_references(doc: TreeView, draft: DraftView, info: int)
    requires
        markup::stands(doc, elements::signed_info(draft), info, 3),
    ensures
        ({
            let list = doc.children(info, ns::DSIG@, "Reference"@);
            let n = draft.files.len() as int;
            &&& list.len() == n + 1
            &&& forall|i: int|
                0 <= i < n ==> refers_to(
                    doc,
                    #[trigger] list[i],
                    draft.files[i],
                    draft.digest_uri,
                ) && doc.attribute(list[i], "Id"@) == Some(
                    markup::read_text(template::reference_id(draft.id, i as nat)),
                )
            &&& refers_to_properties(
                doc,
                list[n],
                markup::read_text(draft.signed_properties_id()),
                draft.digest_uri,
                draft.signed_props_digest,
            )
        }),
{
    elements::lemma_prefixes();
    readback::lemma_different_names();
    let parts = elements::signed_info_parts(draft);
    let tag = elements::ds("SignedInfo"@, elements::bare());
    let n = draft.files.len() as int;
    assert forall|k: int| 0 <= k < parts.len() implies (markup::is_named(
        #[trigger] parts[k],
        ns::DSIG@,
        "Reference"@,
    ) <==> 2 <= k < n + 3) by {
        if 2 <= k < n + 2 {
            let id = template::reference_id(draft.id, (k - 2) as nat);
            assert(parts[k] == elements::file_reference(id, draft.digest_uri, draft.files[k - 2]));
        }
    }
    lemma_row(doc, tag, parts, info, 3, ns::DSIG@, "Reference"@, 2, (n + 1) as nat);
    let list = doc.children(info, ns::DSIG@, "Reference"@);
    assert forall|i: int| 0 <= i < n implies refers_to(
        doc,
        #[trigger] list[i],
        draft.files[i],
        draft.digest_uri,
    ) && doc.attribute(list[i], "Id"@) == Some(
        markup::read_text(template::reference_id(draft.id, i as nat)),
    ) by {
        let id = template::reference_id(draft.id, i as nat);
        assert(parts[2 + i] == elements::file_reference(id, draft.digest_uri, draft.files[i]));
        assert(markup::stands(doc, parts[2 + i], list[i], 4));
        lemma_file_reference(doc, id, draft.digest_uri, draft.files[i], list[i]);
    }
    assert(parts[2 + n] == elements::properties_reference(draft));
    assert(markup::stands(doc, parts[2 + n], list[n], 4));
    lemma_properties_reference(doc, draft, list[n]);
}

/// Where the parts of a built document stand.
proof fn lemma_parts(draft: DraftView, doc: TreeView, sig: int, sp: int)
    requires
        template::document_outcome(draft) == Ok::<Seq<char>, ErrorView>(doc.source),
        markup::reads_as_written(doc),
        doc.descendants(0, ns::DSIG@, "Signature"@).contains(sig),
        doc.descendants(sig, ns::XADES@, "SignedProperties"@).contains(sp),
    ensures
        ({
            let cert_digest = template::certificate_digest(draft);
            let issuer_serial = x509::issuer_serial_outcome(draft.cert_der)->Ok_0;
            &&& markup::stands(doc, elements::signature(draft, cert_digest, issuer_serial), sig, 2)
            &&& markup::stands(
                doc,
                elements::signed_properties(draft, cert_digest, issuer_serial),
                sp,
                5,
            )
            &&& doc.child(sig, ns::DSIG@, "SignedInfo"@) matches Some(info) && markup::stands(
                doc,
                elements::signed_info(draft),
                info,
                3,
            )
            &&& x509::issuer_serial_outcome(draft.cert_der) is Ok
            &&& digest::digest_outcome(draft.digest_uri, draft.cert_der) == Ok::<
                Seq<u8>,
                Seq<char>,
            >(cert_digest)
        }),
{
    let cert_digest = template::certificate_digest(draft);
    let issuer_serial = x509::issuer_serial_outcome(draft.cert_der)->Ok_0;
    readback::lemma_found(draft, cert_digest, issuer_serial, doc);
    assert(sig == 2);
    assert(sp == readback::object_place(draft, cert_digest, issuer_serial) + 2);
    readback::lemma_info_read(draft, cert_digest, issuer_serial, doc, sig);
}

/// A built document that is parsed again names the methods of the draft and refers to the files of
/// the draft, each by its URI and with its digest, in order, and then to its signed properties;
/// and to nothing else.
pub proof fn built_document_refers_to_its_files(
    draft: DraftView,
    doc: TreeView,
    sig: int,
    sp: int,
)
    requires
        template::document_outcome(draft) == Ok::<Seq<char>, ErrorView>(doc.source),
        markup::reads_as_written(doc),
        doc.descendants(0, ns::DSIG@, "Signature"@).contains(sig),
        doc.descendants(sig, ns::XADES@, "SignedProperties"@).contains(sp),
    ensures
        ({
            let info = doc.child(sig, ns::DSIG@, "SignedInfo"@);
            let list = doc.children(info->Some_0, ns::DSIG@, "Reference"@);
            let n = draft.files.len() as int;
            let id = doc.attribute(sp, "Id"@);
            &&& info is Some
            &&& names_method(
                doc,
                doc.child(info->Some_0, ns::DSIG@, "CanonicalizationMethod"@),
                draft.c14n_uri,
            )
            &&& names_method(
                doc,
                doc.child(info->Some_0, ns::DSIG@, "SignatureMethod"@),
                draft.sig_method_uri,
            )
            &&& list.len() == n + 1
            &&& forall|i: int|
                0 <= i < n ==> refers_to(
                    doc,
                    #[trigger] list[i],
                    draft.files[i],
                    draft.digest_uri,
                )
            &&& id is Some
            &&& refers_to_properties(
                doc,
                list[n],
                id->Some_0,
                draft.digest_uri,
                draft.signed_props_digest,
            )
        }),
{
    lemma_parts(draft, doc, sig, sp);
    let info = doc.child(sig, ns::DSIG@, "SignedInfo"@)->Some_0;
    lemma_methods(doc, draft, info);
    lemma_references(doc, draft, info);
    let cert_digest = template::certificate_digest(draft);
    let issuer_serial = x509::issuer_serial_outcome(draft.cert_der)->Ok_0;
    let signed = elements::signed_properties(draft, cert_digest, issuer_serial);
    markup::lemma_attribute(doc, signed, sp, 5, "Id"@);
    readback::lemma_find_one("Id"@, draft.signed_properties_id(), "Id"@);
}

proof fn lemma_hash_sign()
    ensures
        "#"@ == seq!['#'],
{
    reveal_strlit("#");
    assert("#"@ =~= seq!['#']);
}

proof fn lemma_info_names()
    ensures
        "CanonicalizationMethod"@ != "SignatureMethod"@,
{
    reveal_strlit("CanonicalizationMethod");
    reveal_strlit("SignatureMethod");
    assert("CanonicalizationMethod"@.len() == 22 && "SignatureMethod"@.len() == 15);
}

/// Whether a node gives the media type of a file, for the reference of an identifier.
pub open spec fn gives_format(
    doc: TreeView,
    node: int,
    id: Option<Seq<char>>,
    file: FileView,
) -> bool {
    let kind = doc.child(node, ns::XADES@, "MimeType"@);
    &&& id is Some
    &&& doc.attribute(node, "ObjectReference"@) == Some(seq!['#'] + id->Some_0)
    &&& kind is Some
    &&& doc.text(kind->Some_0) == markup::read_text(file.mime_type)
}

proof fn lemma_format(doc: TreeView, id: Seq<char>, file: FileView, a: int)
    requires
        markup::stands(doc, elements::file_format(id, file), a, 7),
    ensures
        gives_format(doc, a, Some(markup::read_text(id)), file),
{
    elements::lemma_prefixes();
    lemma_hash_sign();
    let f = elements::file_format(id, file);
    markup::lemma_attribute(doc, f, a, 7, "ObjectReference"@);
    readback::lemma_find_one("ObjectReference"@, "#"@ + id, "ObjectReference"@);
    readback::lemma_hash(id);
    let leaf_tag = elements::xa("MimeType"@, elements::bare());
    let kind = Markup::Leaf(leaf_tag, file.mime_type);
    markup::lemma_child(doc, f.tag(), seq![kind], a, 7, ns::XADES@, "MimeType"@, 0);
    markup::lemma_leaf(doc, leaf_tag, file.mime_type, markup::place(seq![kind], a + 1, 8, 0), 8);
}

proof fn lemma_formats(doc: TreeView, draft: DraftView, held: int)
    requires
        markup::stands(doc, elements::object_properties(draft), held, 6),
    ensures
        ({
            let formats = doc.children(held, ns::XADES@, "DataObjectFormat"@);
            &&& formats.len() == draft.files.len()
            &&& forall|i: int|
                0 <= i < formats.len() ==> gives_format(
                    doc,
                    #[trigger] formats[i],
                    Some(markup::read_text(template::reference_id(draft.id, i as nat))),
                    draft.files[i],
                )
        }),
{
    elements::lemma_prefixes();
    let kept = elements::file_formats(draft.id, draft.files);
    let tag = elements::xa("SignedDataObjectProperties"@, elements::bare());
    let n = draft.files.len();
    lemma_row(doc, tag, kept, held, 6, ns::XADES@, "DataObjectFormat"@, 0, n);
    let formats = doc.children(held, ns::XADES@, "DataObjectFormat"@);
    assert forall|i: int| 0 <= i < formats.len() implies gives_format(
        doc,
        #[trigger] formats[i],
        Some(markup::read_text(template::reference_id(draft.id, i as nat))),
        draft.files[i],
    ) by {
        let id = template::reference_id(draft.id, i as nat);
        assert(kept[0 + i] == elements::file_format(id, draft.files[i]));
        assert(markup::stands(doc, kept[0 + i], formats[i], 7));
        lemma_format(doc, id, draft.files[i], formats[i]);
    }
}

/// A built document that is parsed again gives for each file of the draft its media type, in order:
/// each format is for the reference to that file.
pub proof fn built_document_gives_the_formats(draft: DraftView, doc: TreeView, sig: int, sp: int)
    requires
        template::document_outcome(draft) == Ok::<Seq<char>, ErrorView>(doc.source),
        markup::reads_as_written(doc),
        doc.descendants(0, ns::DSIG@, "Signature"@).contains(sig),
        doc.descendants(sig, ns::XADES@, "SignedProperties"@).contains(sp),
    ensures
        ({
            let info = doc.child(sig, ns::DSIG@, "SignedInfo"@)->Some_0;
            let list = doc.children(info, ns::DSIG@, "Reference"@);
            let held = doc.child(sp, ns::XADES@, "SignedDataObjectProperties"@);
            let formats = doc.children(held->Some_0, ns::XADES@, "DataObjectFormat"@);
            &&& held is Some
            &&& formats.len() == draft.files.len()
            &&& forall|i: int|
                0 <= i < formats.len() ==> gives_format(
                    doc,
                    #[trigger] formats[i],
                    doc.attribute(list[i], "Id"@),
                    draft.files[i],
                )
        }),
{
    lemma_parts(draft, doc, sig, sp);
    let cert_digest = template::certificate_digest(draft);
    let issuer_serial = x509::issuer_serial_outcome(draft.cert_der)->Ok_0;
    readback::lemma_signed_read(draft, cert_digest, issuer_serial, doc, sp);
    lemma_references(doc, draft, doc.child(sig, ns::DSIG@, "SignedInfo"@)->Some_0);
    lemma_formats(
        doc,
        draft,
        doc.child(sp, ns::XADES@, "SignedDataObjectProperties"@)->Some_0,
    );
}

proof fn lemma_key_names()
    ensures
        "SignedInfo"@ != "KeyInfo"@,
        "SignatureValue"@ != "KeyInfo"@,
        "CertDigest"@ != "IssuerSerialV2"@,
{
    reveal_strlit("SignedInfo");
    reveal_strlit("SignatureValue");
    reveal_strlit("KeyInfo");
    reveal_strlit("CertDigest");
    reveal_strlit("IssuerSerialV2");
    assert("SignedInfo"@.len() == 10 && "SignatureValue"@.len() == 14 && "KeyInfo"@.len() == 7);
    assert("CertDigest"@.len() == 10 && "IssuerSerialV2"@.len() == 14);
}

/// Whether the key information of a signature holds a certificate.
pub open spec fn holds_key(doc: TreeView, sig: int, cert_der: Seq<u8>) -> bool {
    let key = doc.child(sig, ns::DSIG@, "KeyInfo"@);
    let data = doc.child(key->Some_0, ns::DSIG@, "X509Data"@);
    &&& key is Some
    &&& data is Some
    &&& holds_bytes(doc, doc.child(data->Some_0, ns::DSIG@, "X509Certificate"@), cert_der)
}

proof fn lemma_key(doc: TreeView, draft: DraftView, d: Seq<u8>, s: Seq<u8>, sig: int)
    requires
        markup::stands(doc, elements::signature(draft, d, s), sig, 2),
    ensures
        holds_key(doc, sig, draft.cert_der),
{
    elements::lemma_prefixes();
    lemma_key_names();
    let parts = elements::signature_parts(draft, d, s);
    let tag = elements::signature(draft, d, s).tag();
    markup::lemma_child(doc, tag, parts, sig, 2, ns::DSIG@, "KeyInfo"@, 2);
    let key = markup::place(parts, sig + 1, 3, 2);
    let leaf_tag = elements::ds("X509Certificate"@, elements::bare());
    let leaf = elements::bytes(leaf_tag, draft.cert_der);
    let data = Markup::Parent(elements::ds("X509Data"@, elements::bare()), seq![leaf]);
    let key_tag = elements::ds("KeyInfo"@, elements::bare());
    markup::lemma_child(doc, key_tag, seq![data], key, 3, ns::DSIG@, "X509Data"@, 0);
    let at = markup::place(seq![data], key + 1, 4, 0);
    markup::lemma_child(doc, data.tag(), seq![leaf], at, 4, ns::DSIG@, "X509Certificate"@, 0);
    let text = codec::base64_encoded(draft.cert_der);
    markup::lemma_leaf(doc, leaf_tag, text, markup::place(seq![leaf], at + 1, 5, 0), 5);
}

/// Whether signed properties bind a certificate: by a digest, and by its issuer and serial number.
pub open spec fn binds_certificate(
    doc: TreeView,
    sp: int,
    uri: Seq<char>,
    digest: Seq<u8>,
    issuer_serial: Seq<u8>,
) -> bool {
    let own = doc.child(sp, ns::XADES@, "SignedSignatureProperties"@);
    let property = doc.child(own->Some_0, ns::XADES@, "SigningCertificateV2"@);
    let cert = doc.child(property->Some_0, ns::XADES@, "Cert"@);
    let hashed = doc.child(cert->Some_0, ns::XADES@, "CertDigest"@);
    &&& own is Some
    &&& property is Some
    &&& cert is Some
    &&& hashed is Some
    &&& holds_digest(doc, hashed->Some_0, uri, Some(digest))
    &&& holds_bytes(doc, doc.child(cert->Some_0, ns::XADES@, "IssuerSerialV2"@), issuer_serial)
}

proof fn lemma_bound(doc: TreeView, draft: DraftView, d: Seq<u8>, s: Seq<u8>, sp: int)
    requires
        markup::stands(doc, elements::signed_properties(draft, d, s), sp, 5),
    ensures
        binds_certificate(doc, sp, draft.digest_uri, d, s),
{
    readback::lemma_signed_read(draft, d, s, doc, sp);
    elements::lemma_prefixes();
    readback::lemma_different_names();
    lemma_key_names();
    let xs = ns::XADES@;
    let ssp = doc.child(sp, xs, "SignedSignatureProperties"@)->Some_0;
    let own_tag = elements::xa("SignedSignatureProperties"@, elements::bare());
    let time = Markup::Leaf(elements::xa("SigningTime"@, elements::bare()), draft.signing_time);
    let bound = elements::signing_certificate(draft.digest_uri, d, s);
    markup::lemma_child(doc, own_tag, seq![time, bound], ssp, 6, xs, "SigningCertificateV2"@, 1);
    let property = markup::place(seq![time, bound], ssp + 1, 7, 1);
    let value_tag = elements::ds("DigestValue"@, elements::bare());
    let pair = seq![
        elements::algorithm("DigestMethod"@, draft.digest_uri),
        elements::opt_bytes(value_tag, Some(d)),
    ];
    let digest = Markup::Parent(elements::xa("CertDigest"@, elements::bare()), pair);
    let serial_tag = elements::xa("IssuerSerialV2"@, elements::bare());
    let serial = elements::bytes(serial_tag, s);
    let cert = Markup::Parent(elements::xa("Cert"@, elements::bare()), seq![digest, serial]);
    assert(bound == Markup::Parent(bound.tag(), seq![cert]));
    markup::lemma_child(doc, bound.tag(), seq![cert], property, 7, xs, "Cert"@, 0);
    let c = markup::place(seq![cert], property + 1, 8, 0);
    markup::lemma_child(doc, cert.tag(), seq![digest, serial], c, 8, xs, "CertDigest"@, 0);
    markup::lemma_child(doc, cert.tag(), seq![digest, serial], c, 8, xs, "IssuerSerialV2"@, 1);
    let hashed = markup::place(seq![digest, serial], c + 1, 9, 0);
    lemma_digest(doc, digest.tag(), draft.digest_uri, Some(d), hashed, 9);
    let at = markup::place(seq![digest, serial], c + 1, 9, 1);
    markup::lemma_leaf(doc, serial_tag, codec::base64_encoded(s), at, 9);
}

/// A built document that is parsed again holds the signature value and the certificate of the
/// draft, and in its signed properties the digest, the issuer and the serial number of that
/// certificate.
pub proof fn built_document_holds_value_and_certificate(
    draft: DraftView,
    doc: TreeView,
    sig: int,
    sp: int,
)
    requires
        template::document_outcome(draft) == Ok::<Seq<char>, ErrorView>(doc.source),
        markup::reads_as_written(doc),
        doc.descendants(0, ns::DSIG@, "Signature"@).contains(sig),
        doc.descendants(sig, ns::XADES@, "SignedProperties"@).contains(sp),
    ensures
        ({
            let digested = digest::digest_outcome(draft.digest_uri, draft.cert_der);
            let issued = x509::issuer_serial_outcome(draft.cert_der);
            &&& holds_any(
                doc,
                doc.child(sig, ns::DSIG@, "SignatureValue"@),
                draft.signature_value,
            )
            &&& holds_key(doc, sig, draft.cert_der)
            &&& digested is Ok
            &&& issued is Ok
            &&& binds_certificate(doc, sp, draft.digest_uri, digested->Ok_0, issued->Ok_0)
        }),
{
    lemma_parts(draft, doc, sig, sp);
    let cert_digest = template::certificate_digest(draft);
    let issuer_serial = x509::issuer_serial_outcome(draft.cert_der)->Ok_0;
    readback::lemma_value_read(draft, cert_digest, issuer_serial, doc, sig);
    let value = doc.child(sig, ns::DSIG@, "SignatureValue"@)->Some_0;
    lemma_any(doc, elements::signature_value(draft).tag(), draft.signature_value, value, 3);
    lemma_key(doc, draft, cert_digest, issuer_serial, sig);
    lemma_bound(doc, draft, cert_digest, issuer_serial, sp);
}

/// Whether the elements of some name among some nodes are those at some places, in order.
spec fn found_at(list: Seq<Shape>, ns: Seq<char>, local: Seq<char>, at: Seq<int>) -> bool {
    &&& forall|i: int, k: int| 0 <= i < k < at.len() ==> at[i] < at[k]
    &&& forall|i: int| 0 <= i < at.len() ==> 0 <= #[trigger] at[i] < list.len()
    &&& forall|k: int|
        0 <= k < list.len() ==> ((#[trigger] list[k]).name == Some((Some(ns), local))
            <==> at.contains(k))
}

/// Places a few nodes further on.
spec fn shifted(at: Seq<int>, n: int) -> Seq<int> {
    Seq::new(at.len(), |i: int| at[i] + n)
}

proof fn lemma_together(
    a: Seq<Shape>,
    b: Seq<Shape>,
    ns: Seq<char>,
    local: Seq<char>,
    s: Seq<int>,
    t: Seq<int>,
)
    requires
        found_at(a, ns, local, s),
        found_at(b, ns, local, t),
    ensures
        found_at(a + b, ns, local, s + shifted(t, a.len() as int)),
{
    let n = a.len() as int;
    let all = a + b;
    let moved = shifted(t, n);
    let at = s + moved;
    assert forall|i: int, k: int| 0 <= i < k < at.len() implies at[i] < at[k] by {
        if i < s.len() {
            assert(0 <= s[i] < n);
        }
        if k >= s.len() {
            assert(0 <= t[k - s.len()]);
        }
    }
    assert forall|i: int| 0 <= i < at.len() implies 0 <= #[trigger] at[i] < all.len() by {
        if i < s.len() {
            assert(0 <= s[i] < n);
        } else {
            assert(0 <= t[i - s.len()] < b.len());
        }
    }
    assert forall|k: int| 0 <= k < all.len() implies ((#[trigger] all[k]).name == Some(
        (Some(ns), local),
    ) <==> at.contains(k)) by {
        if k < n {
            assert(all[k] == a[k]);
            if s.contains(k) {
                let i = s.index_of(k);
                assert(at[i] == k);
            }
            if at.contains(k) {
                let i = at.index_of(k);
                if i >= s.len() {
                    assert(0 <= t[i - s.len()]);
                }
                assert(s[i] == k);
            }
        } else {
            assert(all[k] == b[k - n]);
            if t.contains(k - n) {
                let i = t.index_of(k - n);
                assert(at[s.len() + i] == k);
            }
            if at.contains(k) {
                let i = at.index_of(k);
                if i < s.len() {
                    assert(0 <= s[i] < n);
                }
                assert(t[i - s.len()] == k - n);
            }
        }
    }
}

/// An element of another name has what it holds.
proof fn lemma_around(
    tag: Tag,
    list: Seq<Markup>,
    depth: nat,
    ns: Seq<char>,
    local: Seq<char>,
    at: Seq<int>,
)
    requires
        tag.local != local,
        found_at(markup::list_shapes(list, depth + 1), ns, local, at),
    ensures
        found_at(markup::shapes(Markup::Parent(tag, list), depth), ns, local, shifted(at, 1)),
{
    let own = seq![markup::tag_shape(tag, depth)];
    assert(found_at(own, ns, local, Seq::empty()));
    let inner = markup::list_shapes(list, depth + 1);
    lemma_together(own, inner, ns, local, Seq::empty(), at);
    assert(Seq::<int>::empty() + shifted(at, 1) =~= shifted(at, 1));
}

/// Where the elements start that hold some byte strings.
spec fn heads(tag: Tag, values: Seq<Seq<u8>>, depth: nat) -> Seq<int> {
    Seq::new(
        values.len(),
        |i: int| markup::list_shapes(elements::all_bytes(tag, values).take(i), depth).len() as int,
    )
}

proof fn lemma_leaves(tag: Tag, values: Seq<Seq<u8>>, depth: nat, ns: Seq<char>)
    requires
        markup::namespace_of(tag.prefix) == Some(ns),
    ensures
        found_at(
            markup::list_shapes(elements::all_bytes(tag, values), depth),
            ns,
            tag.local,
            heads(tag, values, depth),
        ),
    decreases values.len(),
{
    let list = elements::all_bytes(tag, values);
    let at = heads(tag, values, depth);
    if values.len() == 0 {
        assert(at =~= Seq::<int>::empty());
    } else {
        let front = values.drop_last();
        lemma_leaves(tag, front, depth, ns);
        assert(list.drop_last() =~= elements::all_bytes(tag, front));
        let last = elements::bytes(tag, values.last());
        assert(list.last() == last);
        let own = markup::shapes(last, depth);
        assert(own[0].name == Some((Some(ns), tag.local)));
        assert(own.len() == 2 ==> own[1].name is None);
        assert(seq![0int].contains(0)) by {
            assert(seq![0int][0] == 0);
        }
        assert(found_at(own, ns, tag.local, seq![0int]));
        let before = markup::list_shapes(elements::all_bytes(tag, front), depth);
        lemma_together(before, own, ns, tag.local, heads(tag, front, depth), seq![0int]);
        assert forall|i: int| 0 <= i < front.len() implies heads(tag, front, depth)[i] == at[i] by {
            assert(elements::all_bytes(tag, front).take(i) =~= list.take(i));
        }
        assert(list.take(front.len() as int) =~= elements::all_bytes(tag, front));
        assert(at =~= heads(tag, front, depth) + shifted(seq![0int], before.len() as int));
    }
}

proof fn lemma_others(
    tag: Tag,
    values: Seq<Seq<u8>>,
    depth: nat,
    ns: Seq<char>,
    local: Seq<char>,
)
    requires
        tag.local != local,
    ensures
        found_at(
            markup::list_shapes(elements::all_bytes(tag, values), depth),
            ns,
            local,
            Seq::empty(),
        ),
    decreases values.len(),
{
    let list = elements::all_bytes(tag, values);
    if values.len() > 0 {
        let front = values.drop_last();
        lemma_others(tag, front, depth, ns, local);
        assert(list.drop_last() =~= elements::all_bytes(tag, front));
        let last = elements::bytes(tag, values.last());
        assert(list.last() == last);
        let own = markup::shapes(last, depth);
        assert(own[0].name != Some((Some(ns), local)));
        assert(own.len() == 2 ==> own[1].name is None);
        assert(found_at(own, ns, local, Seq::empty()));
        let before = markup::list_shapes(elements::all_bytes(tag, front), depth);
        lemma_together(before, own, ns, local, Seq::empty(), Seq::empty());
        assert(Seq::<int>::empty() + shifted(Seq::empty(), before.len() as int) =~= Seq::<
            int,
        >::empty());
    }
}

/// The elements of a name inside an element, from the nodes that it reads as.
proof fn lemma_inside(
    doc: TreeView,
    m: Markup,
    a: int,
    depth: nat,
    ns: Seq<char>,
    local: Seq<char>,
    at: Seq<int>,
)
    requires
        markup::stands(doc, m, a, depth),
        found_at(markup::shapes(m, depth), ns, local, at),
        m.tag().local != local,
    ensures
        doc.descendants(a, ns, local) == shifted(at, a),
{
    let all = markup::shapes(m, depth);
    let found = doc.descendants(a, ns, local);
    let wanted = |j: int| doc.is_descendant(a, j) && doc.nodes[j].is_element(ns, local);
    markup::lemma_extent(doc, m, a, depth);
    markup::lemma_depths(m, depth);
    tree::matching_is_exact(doc.nodes.len() as int, wanted);
    let moved = shifted(at, a);
    assert forall|j: int| found.contains(j) <==> moved.contains(j) by {
        if found.contains(j) {
            assert(markup::shape_of(doc.nodes[j]) == all[j - a]);
            let i = at.index_of(j - a);
            assert(moved[i] == j);
        }
        if moved.contains(j) {
            let i = moved.index_of(j);
            assert(0 <= at[i] < all.len());
            assert(at.contains(at[i]));
            assert(markup::shape_of(doc.nodes[j]) == all[j - a]);
            assert(wanted(j));
        }
    }
    lemma_same_ascending(found, moved);
}

proof fn lemma_value_names()
    ensures
        "SignatureTimeStamp"@ != "EncapsulatedX509Certificate"@,
        "SignatureTimeStamp"@ != "EncapsulatedOCSPValue"@,
        "CanonicalizationMethod"@ != "EncapsulatedX509Certificate"@,
        "CanonicalizationMethod"@ != "EncapsulatedOCSPValue"@,
        "EncapsulatedTimeStamp"@ != "EncapsulatedX509Certificate"@,
        "EncapsulatedTimeStamp"@ != "EncapsulatedOCSPValue"@,
        "CertificateValues"@ != "EncapsulatedX509Certificate"@,
        "CertificateValues"@ != "EncapsulatedOCSPValue"@,
        "RevocationValues"@ != "EncapsulatedX509Certificate"@,
        "RevocationValues"@ != "EncapsulatedOCSPValue"@,
        "OCSPValues"@ != "EncapsulatedX509Certificate"@,
        "OCSPValues"@ != "EncapsulatedOCSPValue"@,
        "UnsignedSignatureProperties"@ != "EncapsulatedX509Certificate"@,
        "UnsignedSignatureProperties"@ != "EncapsulatedOCSPValue"@,
        "EncapsulatedX509Certificate"@ != "EncapsulatedOCSPValue"@,
        "CanonicalizationMethod"@ != "EncapsulatedTimeStamp"@,
{
    reveal_strlit("SignatureTimeStamp");
    reveal_strlit("CanonicalizationMethod");
    reveal_strlit("EncapsulatedTimeStamp");
    reveal_strlit("CertificateValues");
    reveal_strlit("RevocationValues");
    reveal_strlit("OCSPValues");
    reveal_strlit("UnsignedSignatureProperties");
    reveal_strlit("EncapsulatedX509Certificate");
    reveal_strlit("EncapsulatedOCSPValue");
    assert("SignatureTimeStamp"@.len() == 18 && "CanonicalizationMethod"@.len() == 22);
    assert("EncapsulatedTimeStamp"@.len() == 21 && "CertificateValues"@.len() == 17);
    assert("RevocationValues"@.len() == 16 && "OCSPValues"@.len() == 10);
    assert("UnsignedSignatureProperties"@.len() == 27);
    assert("EncapsulatedX509Certificate"@.len() == 27);
    assert("EncapsulatedOCSPValue"@.len() == 21);
    assert("UnsignedSignatureProperties"@[0] == 'U');
    assert("EncapsulatedX509Certificate"@[0] == 'E');
    assert("EncapsulatedTimeStamp"@[12] == 'T');
    assert("EncapsulatedOCSPValue"@[12] == 'O');
}

/// A time-stamp holds no certificates and no OCSP responses.
proof fn lemma_stamp_lacks(id: Seq<char>, u: UnsignedView, local: Seq<char>)
    requires
        local == "EncapsulatedX509Certificate"@ || local == "EncapsulatedOCSPValue"@,
    ensures
        found_at(
            markup::shapes(elements::signature_timestamp(id, u), 7),
            ns::XADES@,
            local,
            Seq::empty(),
        ),
{
    lemma_value_names();
    let xs = ns::XADES@;
    let none = Seq::<int>::empty();
    let method = elements::algorithm("CanonicalizationMethod"@, u.timestamp_c14n_uri);
    let stamp = elements::bytes(
        elements::xa("EncapsulatedTimeStamp"@, elements::bare()),
        u.timestamp_der,
    );
    let (a, b) = (markup::shapes(method, 8), markup::shapes(stamp, 8));
    assert(found_at(a, xs, local, none));
    assert(b[0].name != Some((Some(xs), local)));
    assert(b.len() == 2 ==> b[1].name is None);
    assert(found_at(b, xs, local, none));
    lemma_together(a, b, xs, local, none, none);
    assert(none + shifted(none, a.len() as int) =~= none);
    markup::lemma_one(method, 8);
    markup::lemma_one(stamp, 8);
    markup::lemma_list_concat(seq![method], seq![stamp], 8);
    assert(seq![method] + seq![stamp] =~= seq![method, stamp]);
    let tag = elements::signature_timestamp(id, u).tag();
    lemma_around(tag, seq![method, stamp], 7, xs, local, none);
    assert(shifted(none, 1) =~= none);
}

/// Where the certificates are among the nodes of their property.
proof fn lemma_certificates_at(certs: Seq<Seq<u8>>)
    ensures
        found_at(
            markup::list_shapes(elements::certificate_values(certs), 7),
            ns::XADES@,
            "EncapsulatedX509Certificate"@,
            shifted(
                heads(
                    elements::xa("EncapsulatedX509Certificate"@, elements::bare()),
                    certs,
                    8,
                ),
                1,
            ),
        ),
        found_at(
            markup::list_shapes(elements::certificate_values(certs), 7),
            ns::XADES@,
            "EncapsulatedOCSPValue"@,
            Seq::empty(),
        ),
{
    lemma_value_names();
    elements::lemma_prefixes();
    let xs = ns::XADES@;
    let none = Seq::<int>::empty();
    let tag = elements::xa("EncapsulatedX509Certificate"@, elements::bare());
    let outer = elements::xa("CertificateValues"@, elements::bare());
    let list = elements::all_bytes(tag, certs);
    if certs.len() == 0 {
        assert(shifted(heads(tag, certs, 8), 1) =~= none);
    } else {
        lemma_leaves(tag, certs, 8, xs);
        lemma_around(outer, list, 7, xs, tag.local, heads(tag, certs, 8));
        lemma_others(tag, certs, 8, xs, "EncapsulatedOCSPValue"@);
        lemma_around(outer, list, 7, xs, "EncapsulatedOCSPValue"@, none);
        assert(shifted(none, 1) =~= none);
        markup::lemma_one(Markup::Parent(outer, list), 7);
    }
}

/// Where the OCSP responses are among the nodes of their property.
proof fn lemma_responses_at(responses: Seq<Seq<u8>>)
    ensures
        found_at(
            markup::list_shapes(elements::revocation_values(responses), 7),
            ns::XADES@,
            "EncapsulatedOCSPValue"@,
            shifted(
                heads(elements::xa("EncapsulatedOCSPValue"@, elements::bare()), responses, 9),
                2,
            ),
        ),
        found_at(
            markup::list_shapes(elements::revocation_values(responses), 7),
            ns::XADES@,
            "EncapsulatedX509Certificate"@,
            Seq::empty(),
        ),
{
    lemma_value_names();
    elements::lemma_prefixes();
    let xs = ns::XADES@;
    let none = Seq::<int>::empty();
    let tag = elements::xa("EncapsulatedOCSPValue"@, elements::bare());
    let inner = elements::xa("OCSPValues"@, elements::bare());
    let outer = elements::xa("RevocationValues"@, elements::bare());
    let list = elements::all_bytes(tag, responses);
    let at = heads(tag, responses, 9);
    if responses.len() == 0 {
        assert(shifted(at, 2) =~= none);
    } else {
        let held = seq![Markup::Parent(inner, list)];
        markup::lemma_one(Markup::Parent(inner, list), 8);
        markup::lemma_one(Markup::Parent(outer, held), 7);
        lemma_leaves(tag, responses, 9, xs);
        lemma_around(inner, list, 8, xs, tag.local, at);
        lemma_around(outer, held, 7, xs, tag.local, shifted(at, 1));
        assert(shifted(shifted(at, 1), 1) =~= shifted(at, 2));
        let other = "EncapsulatedX509Certificate"@;
        lemma_others(tag, responses, 9, xs, other);
        lemma_around(inner, list, 8, xs, other, none);
        assert(shifted(none, 1) =~= none);
        lemma_around(outer, held, 7, xs, other, none);
    }
}

/// The places of certificates and responses among the nodes of unsigned properties.
proof fn lemma_unsigned_at(id: Seq<char>, u: UnsignedView)
    ensures
        ({
            let all = markup::shapes(elements::unsigned_signature_properties(id, u), 6);
            let n = 1 + markup::shapes(elements::signature_timestamp(id, u), 7).len() as int;
            let k = markup::list_shapes(
                elements::certificate_values(u.cert_values),
                7,
            ).len() as int;
            let cert_tag = elements::xa("EncapsulatedX509Certificate"@, elements::bare());
            let ocsp_tag = elements::xa("EncapsulatedOCSPValue"@, elements::bare());
            &&& found_at(
                all,
                ns::XADES@,
                "EncapsulatedX509Certificate"@,
                shifted(heads(cert_tag, u.cert_values, 8), n + 1),
            )
            &&& found_at(
                all,
                ns::XADES@,
                "EncapsulatedOCSPValue"@,
                shifted(heads(ocsp_tag, u.ocsp_values, 9), n + k + 2),
            )
        }),
{
    lemma_value_names();
    let xs = ns::XADES@;
    let none = Seq::<int>::empty();
    let stamp = elements::signature_timestamp(id, u);
    let certs = elements::certificate_values(u.cert_values);
    let responses = elements::revocation_values(u.ocsp_values);
    let first = "EncapsulatedX509Certificate"@;
    let second = "EncapsulatedOCSPValue"@;
    let cert_at = heads(elements::xa(first, elements::bare()), u.cert_values, 8);
    let ocsp_at = heads(elements::xa(second, elements::bare()), u.ocsp_values, 9);
    lemma_stamp_lacks(id, u, first);
    lemma_stamp_lacks(id, u, second);
    lemma_certificates_at(u.cert_values);
    lemma_responses_at(u.ocsp_values);
    let a = markup::shapes(stamp, 7);
    let b = markup::list_shapes(certs, 7);
    let c = markup::list_shapes(responses, 7);
    markup::lemma_one(stamp, 7);
    markup::lemma_list_concat(seq![stamp], certs, 7);
    markup::lemma_list_concat(seq![stamp] + certs, responses, 7);
    let tag = elements::xa("UnsignedSignatureProperties"@, elements::bare());
    let parts = elements::unsigned_parts(id, u);
    assert(markup::list_shapes(parts, 7) == a + b + c);
    let n = a.len() as int;
    let k = b.len() as int;
    lemma_together(a, b, xs, first, none, shifted(cert_at, 1));
    lemma_together(a + b, c, xs, first, none + shifted(shifted(cert_at, 1), n), none);
    lemma_around(
        tag,
        parts,
        6,
        xs,
        first,
        none + shifted(shifted(cert_at, 1), n) + shifted(none, n + k),
    );
    assert(shifted(none + shifted(shifted(cert_at, 1), n) + shifted(none, n + k), 1) =~= shifted(
        cert_at,
        n + 2,
    ));
    lemma_together(a, b, xs, second, none, none);
    assert(none + shifted(none, n) =~= none);
    lemma_together(a + b, c, xs, second, none, shifted(ocsp_at, 2));
    lemma_around(tag, parts, 6, xs, second, none + shifted(shifted(ocsp_at, 2), n + k));
    assert(shifted(none + shifted(shifted(ocsp_at, 2), n + k), 1) =~= shifted(
        ocsp_at,
        n + k + 3,
    ));
}

/// Whether the elements of a name inside an element hold some byte strings, one each, in order.
pub open spec fn holds_all(
    doc: TreeView,
    around: int,
    local: Seq<char>,
    values: Seq<Seq<u8>>,
) -> bool {
    let found = doc.descendants(around, ns::XADES@, local);
    &&& found.len() == values.len()
    &&& forall|i: int|
        0 <= i < values.len() ==> holds_bytes(doc, Some(#[trigger] found[i]), values[i])
}

proof fn lemma_row_of_bytes(
    doc: TreeView,
    tag: Tag,
    outer: Tag,
    values: Seq<Seq<u8>>,
    a: int,
    depth: nat,
    i: int,
)
    requires
        markup::stands(doc, Markup::Parent(outer, elements::all_bytes(tag, values)), a, depth),
        0 <= i < values.len(),
    ensures
        holds_bytes(doc, Some(a + 1 + heads(tag, values, depth + 1)[i]), values[i]),
{
    let list = elements::all_bytes(tag, values);
    markup::lemma_content(doc, outer, list, a, depth);
    markup::lemma_member(doc, list, a + 1, depth + 1, i);
    let at = markup::place(list, a + 1, depth + 1, i);
    markup::lemma_leaf(doc, tag, codec::base64_encoded(values[i]), at, depth + 1);
}

proof fn lemma_certificates_held(doc: TreeView, id: Seq<char>, u: UnsignedView, usp: int)
    requires
        markup::stands(doc, elements::unsigned_signature_properties(id, u), usp, 6),
    ensures
        holds_all(doc, usp, "EncapsulatedX509Certificate"@, u.cert_values),
{
    lemma_value_names();
    lemma_unsigned_at(id, u);
    let m = elements::unsigned_signature_properties(id, u);
    let n = 1 + markup::shapes(elements::signature_timestamp(id, u), 7).len() as int;
    let local = "EncapsulatedX509Certificate"@;
    let tag = elements::xa(local, elements::bare());
    let at = heads(tag, u.cert_values, 8);
    lemma_inside(doc, m, usp, 6, ns::XADES@, local, shifted(at, n + 1));
    let found = doc.descendants(usp, ns::XADES@, local);
    let parts = elements::unsigned_parts(id, u);
    if u.cert_values.len() > 0 {
        let outer = elements::xa("CertificateValues"@, elements::bare());
        let held = Markup::Parent(outer, elements::all_bytes(tag, u.cert_values));
        assert(parts[1] == held);
        markup::lemma_content(doc, m.tag(), parts, usp, 6);
        markup::lemma_member(doc, parts, usp + 1, 7, 1);
        assert(parts.take(1) =~= seq![elements::signature_timestamp(id, u)]);
        markup::lemma_one(elements::signature_timestamp(id, u), 7);
        assert forall|i: int| 0 <= i < u.cert_values.len() implies holds_bytes(
            doc,
            Some(#[trigger] found[i]),
            u.cert_values[i],
        ) by {
            lemma_row_of_bytes(doc, tag, outer, u.cert_values, usp + n, 7, i);
        }
    }
}

proof fn lemma_responses_held(doc: TreeView, id: Seq<char>, u: UnsignedView, usp: int)
    requires
        markup::stands(doc, elements::unsigned_signature_properties(id, u), usp, 6),
    ensures
        holds_all(doc, usp, "EncapsulatedOCSPValue"@, u.ocsp_values),
{
    lemma_value_names();
    lemma_unsigned_at(id, u);
    let m = elements::unsigned_signature_properties(id, u);
    let stamp = elements::signature_timestamp(id, u);
    let certs = elements::certificate_values(u.cert_values);
    let n = 1 + markup::shapes(stamp, 7).len() as int;
    let k = markup::list_shapes(certs, 7).len() as int;
    let local = "EncapsulatedOCSPValue"@;
    let tag = elements::xa(local, elements::bare());
    let at = heads(tag, u.ocsp_values, 9);
    lemma_inside(doc, m, usp, 6, ns::XADES@, local, shifted(at, n + k + 2));
    let found = doc.descendants(usp, ns::XADES@, local);
    let parts = elements::unsigned_parts(id, u);
    if u.ocsp_values.len() > 0 {
        let inner = elements::xa("OCSPValues"@, elements::bare());
        let outer = elements::xa("RevocationValues"@, elements::bare());
        let held = Markup::Parent(inner, elements::all_bytes(tag, u.ocsp_values));
        let last = parts.len() - 1;
        assert(parts[last] == Markup::Parent(outer, seq![held]));
        markup::lemma_content(doc, m.tag(), parts, usp, 6);
        markup::lemma_member(doc, parts, usp + 1, 7, last);
        assert(parts.take(last) =~= seq![stamp] + certs);
        markup::lemma_one(stamp, 7);
        markup::lemma_list_concat(seq![stamp], certs, 7);
        let p = markup::place(parts, usp + 1, 7, last);
        markup::lemma_content(doc, outer, seq![held], p, 7);
        markup::lemma_member(doc, seq![held], p + 1, 8, 0);
        assert(seq![held].take(0) =~= Seq::<Markup>::empty());
        assert forall|i: int| 0 <= i < u.ocsp_values.len() implies holds_bytes(
            doc,
            Some(#[trigger] found[i]),
            u.ocsp_values[i],
        ) by {
            lemma_row_of_bytes(doc, tag, inner, u.ocsp_values, p + 1, 8, i);
        }
    }
}

/// The unsigned properties of the signature of a node.
pub open spec fn unsigned_of(doc: TreeView, sig: int) -> Option<int> {
    let around = doc.descendants(sig, ns::XADES@, "QualifyingProperties"@);
    if around.len() == 1 {
        doc.child_of(
            doc.child(around[0], ns::XADES@, "UnsignedProperties"@),
            ns::XADES@,
            "UnsignedSignatureProperties"@,
        )
    } else {
        None
    }
}

/// Whether unsigned properties hold one time-stamp: a token, and the canonicalization of what it
/// covers.
pub open spec fn holds_stamp(doc: TreeView, usp: int, token: Seq<u8>, uri: Seq<char>) -> bool {
    let stamps = doc.children(usp, ns::XADES@, "SignatureTimeStamp"@);
    &&& stamps.len() == 1
    &&& names_method(doc, doc.child(stamps[0], ns::DSIG@, "CanonicalizationMethod"@), uri)
    &&& holds_bytes(doc, doc.child(stamps[0], ns::XADES@, "EncapsulatedTimeStamp"@), token)
}

proof fn lemma_stamp_held(doc: TreeView, id: Seq<char>, u: UnsignedView, usp: int)
    requires
        markup::stands(doc, elements::unsigned_signature_properties(id, u), usp, 6),
    ensures
        holds_stamp(doc, usp, u.timestamp_der, u.timestamp_c14n_uri),
{
    lemma_value_names();
    elements::lemma_prefixes();
    let tst = readback::lemma_one_stamp(doc, id, u, usp);
    let tag = elements::signature_timestamp(id, u).tag();
    let method = elements::algorithm("CanonicalizationMethod"@, u.timestamp_c14n_uri);
    let stamp_tag = elements::xa("EncapsulatedTimeStamp"@, elements::bare());
    let pair = seq![method, elements::bytes(stamp_tag, u.timestamp_der)];
    markup::lemma_child(doc, tag, pair, tst, 7, ns::DSIG@, "CanonicalizationMethod"@, 0);
    markup::lemma_child(doc, tag, pair, tst, 7, ns::XADES@, "EncapsulatedTimeStamp"@, 1);
    let first = markup::place(pair, tst + 1, 8, 0);
    lemma_method(doc, "CanonicalizationMethod"@, u.timestamp_c14n_uri, first, 8);
    let second = markup::place(pair, tst + 1, 8, 1);
    markup::lemma_leaf(doc, stamp_tag, codec::base64_encoded(u.timestamp_der), second, 8);
}

/// Where the unsigned properties of a built document stand.
proof fn lemma_unsigned_found(
    draft: DraftView,
    u: UnsignedView,
    doc: TreeView,
    sig: int,
) -> (usp: int)
    requires
        template::document_outcome(draft) == Ok::<Seq<char>, ErrorView>(doc.source),
        draft.unsigned == Some(u),
        markup::reads_as_written(doc),
        doc.descendants(0, ns::DSIG@, "Signature"@).contains(sig),
    ensures
        unsigned_of(doc, sig) == Some(usp),
        markup::stands(doc, elements::unsigned_signature_properties(draft.id, u), usp, 6),
{
    let d = template::certificate_digest(draft);
    let s = x509::issuer_serial_outcome(draft.cert_der)->Ok_0;
    readback::lemma_found(draft, d, s, doc);
    assert(sig == 2);
    let qp = readback::object_place(draft, d, s) + 1;
    elements::lemma_prefixes();
    readback::lemma_different_names();
    let held = elements::qualifying_parts(draft, d, s);
    let tag = elements::qualifying_properties(draft, d, s).tag();
    markup::lemma_child(doc, tag, held, qp, 4, ns::XADES@, "UnsignedProperties"@, 1);
    let up = markup::place(held, qp + 1, 5, 1);
    let inner = elements::unsigned_signature_properties(draft.id, u);
    let name = "UnsignedSignatureProperties"@;
    let up_tag = elements::xa("UnsignedProperties"@, elements::bare());
    markup::lemma_child(doc, up_tag, seq![inner], up, 5, ns::XADES@, name, 0);
    markup::place(seq![inner], up + 1, 6, 0)
}

/// The document of a signature that was extended to LT level holds, when it is parsed again, the
/// certificates and the OCSP responses that were given, each decoded to the same bytes, in order
/// and none besides, and one time-stamp with the token that was given. What else the signature was
/// made from stays.
pub proof fn extended_document_holds_what_was_given(
    before: CreatedSignature,
    token: Vec<u8>,
    ocsp_values: Vec<Vec<u8>>,
    cert_values: Vec<Vec<u8>>,
    r: Result<CreatedSignature, LibError>,
    doc: TreeView,
    sig: int,
)
    requires
        call_ensures(
            CreatedSignature::extend_to_lt_with,
            (before, token, ocsp_values, cert_values),
            r,
        ),
        r matches Ok(s) ==> s.document() == doc.source,
        markup::reads_as_written(doc),
        doc.descendants(0, ns::DSIG@, "Signature"@).contains(sig),
    ensures
        r is Ok,
        ({
            let usp = unsigned_of(doc, sig);
            let certs = doc.descendants(
                usp->Some_0,
                ns::XADES@,
                "EncapsulatedX509Certificate"@,
            );
            let responses = doc.descendants(usp->Some_0, ns::XADES@, "EncapsulatedOCSPValue"@);
            let stamps = doc.children(usp->Some_0, ns::XADES@, "SignatureTimeStamp"@);
            let stamp = doc.child(stamps[0], ns::XADES@, "EncapsulatedTimeStamp"@);
            &&& usp is Some
            &&& certs.len() == cert_values@.len()
            &&& forall|i: int|
                0 <= i < certs.len() ==> codec::embedded_base64(doc.text(#[trigger] certs[i]))
                    == Some(cert_values@[i]@)
            &&& responses.len() == ocsp_values@.len()
            &&& forall|i: int|
                0 <= i < responses.len() ==> codec::embedded_base64(
                    doc.text(#[trigger] responses[i]),
                ) == Some(ocsp_values@[i]@)
            &&& stamps.len() == 1
            &&& stamp is Some
            &&& codec::embedded_base64(doc.text(stamp->Some_0)) == Some(token@)
            &&& names_method(
                doc,
                doc.child(stamps[0], ns::DSIG@, "CanonicalizationMethod"@),
                before.draft().c14n_uri,
            )
        }),
        r->Ok_0.draft() == (DraftView { unsigned: r->Ok_0.draft().unsigned, ..before.draft() }),
{
    let draft = r->Ok_0.draft();
    let u = draft.unsigned->Some_0;
    let usp = lemma_unsigned_found(draft, u, doc, sig);
    lemma_certificates_held(doc, draft.id, u, usp);
    lemma_responses_held(doc, draft.id, u, usp);
    lemma_stamp_held(doc, draft.id, u, usp);
    let certs = doc.descendants(usp, ns::XADES@, "EncapsulatedX509Certificate"@);
    let responses = doc.descendants(usp, ns::XADES@, "EncapsulatedOCSPValue"@);
    assert forall|i: int| 0 <= i < certs.len() implies codec::embedded_base64(
        doc.text(#[trigger] certs[i]),
    ) == Some(cert_values@[i]@) by {
        assert(text::byte_strings(cert_values@)[i] == cert_values@[i]@);
        assert(holds_bytes(doc, Some(certs[i]), u.cert_values[i]));
    }
    assert forall|i: int| 0 <= i < responses.len() implies codec::embedded_base64(
        doc.text(#[trigger] responses[i]),
    ) == Some(ocsp_values@[i]@) by {
        assert(text::byte_strings(ocsp_values@)[i] == ocsp_values@[i]@);
        assert(holds_bytes(doc, Some(responses[i]), u.ocsp_values[i]));
    }
}

/// The document of a signature that was extended to T level holds, when it is parsed again, one
/// time-stamp with the token that was given, and neither certificates nor OCSP responses. What else
/// the signature was made from stays.
pub proof fn stamped_document_holds_the_token(
    before: CreatedSignature,
    token: Vec<u8>,
    r: Result<CreatedSignature, LibError>,
    doc: TreeView,
    sig: int,
)
    requires
        call_ensures(CreatedSignature::extend_to_t_with, (before, token), r),
        r matches Ok(s) ==> s.document() == doc.source,
        markup::reads_as_written(doc),
        doc.descendants(0, ns::DSIG@, "Signature"@).contains(sig),
    ensures
        r is Ok,
        ({
            let usp = unsigned_of(doc, sig);
            let stamps = doc.children(usp->Some_0, ns::XADES@, "SignatureTimeStamp"@);
            let stamp = doc.child(stamps[0], ns::XADES@, "EncapsulatedTimeStamp"@);
            let first = "EncapsulatedX509Certificate"@;
            &&& usp is Some
            &&& doc.descendants(usp->Some_0, ns::XADES@, first).len() == 0
            &&& doc.descendants(usp->Some_0, ns::XADES@, "EncapsulatedOCSPValue"@).len() == 0
            &&& stamps.len() == 1
            &&& stamp is Some
            &&& codec::embedded_base64(doc.text(stamp->Some_0)) == Some(token@)
            &&& names_method(
                doc,
                doc.child(stamps[0], ns::DSIG@, "CanonicalizationMethod"@),
                before.draft().c14n_uri,
            )
        }),
        r->Ok_0.draft() == (DraftView { unsigned: r->Ok_0.draft().unsigned, ..before.draft() }),
{
    let draft = r->Ok_0.draft();
    let u = draft.unsigned->Some_0;
    let usp = lemma_unsigned_found(draft, u, doc, sig);
    lemma_certificates_held(doc, draft.id, u, usp);
    lemma_responses_held(doc, draft.id, u, usp);
    lemma_stamp_held(doc, draft.id, u, usp);
}

/// The document at the end of an extension to LT level holds, when it is parsed again, the
/// certificates that complete the signer's chain, in order, the one OCSP response that was fetched,
/// and the time-stamp token. It comes about exactly if the response calls the signer's certificate
/// good, as of now and with the nonce of the request.
pub proof fn completed_extension_holds_its_data(
    request: StatusRequest,
    response: Vec<u8>,
    nonce: Vec<u8>,
    now: Time,
    r: Result<CreatedSignature, LibError>,
    doc: TreeView,
    sig: int,
)
    requires
        call_ensures(StatusRequest::complete, (request, Ok((response, nonce)), now), r),
        r matches Ok(s) ==> s.document() == doc.source,
        markup::reads_as_written(doc),
        doc.descendants(0, ns::DSIG@, "Signature"@).contains(sig),
    ensures
        r is Ok <==> ltv::revocation_outcome(
            response@,
            request@.0.leaf.der,
            request@.1.der,
            Some(nonce@),
            now@.secs,
            now@.nanos,
        ) == Ok::<Option<Seq<char>>, Seq<char>>(None),
        r matches Ok(s) ==> {
            let usp = unsigned_of(doc, sig);
            &&& usp is Some
            &&& holds_all(
                doc,
                usp->Some_0,
                "EncapsulatedX509Certificate"@,
                request@.0.candidates,
            )
            &&& holds_all(doc, usp->Some_0, "EncapsulatedOCSPValue"@, seq![response@])
            &&& holds_stamp(doc, usp->Some_0, request@.2, request@.0.draft.c14n_uri)
            &&& s.draft() == (DraftView { unsigned: s.draft().unsigned, ..request@.0.draft })
        },
{
    if r is Ok {
        let draft = r->Ok_0.draft();
        let u = draft.unsigned->Some_0;
        let usp = lemma_unsigned_found(draft, u, doc, sig);
        lemma_certificates_held(doc, draft.id, u, usp);
        lemma_responses_held(doc, draft.id, u, usp);
        lemma_stamp_held(doc, draft.id, u, usp);
    }
}

/// The parts of a built document that is parsed again have the identifiers that follow from that of
/// the signature.
pub proof fn built_parts_have_their_ids(draft: DraftView, doc: TreeView, sig: int, sp: int)
    requires
        template::document_outcome(draft) == Ok::<Seq<char>, ErrorView>(doc.source),
        markup::reads_as_written(doc),
        doc.descendants(0, ns::DSIG@, "Signature"@).contains(sig),
        doc.descendants(sig, ns::XADES@, "SignedProperties"@).contains(sp),
    ensures
        ({
            let info = doc.child(sig, ns::DSIG@, "SignedInfo"@)->Some_0;
            let list = doc.children(info, ns::DSIG@, "Reference"@);
            let value = doc.child(sig, ns::DSIG@, "SignatureValue"@)->Some_0;
            let usp = unsigned_of(doc, sig)->Some_0;
            let stamps = doc.children(usp, ns::XADES@, "SignatureTimeStamp"@);
            &&& doc.attribute(sig, "Id"@) == Some(markup::read_text(draft.id))
            &&& doc.attribute(value, "Id"@) == Some(markup::read_text(draft.id + "-SIG"@))
            &&& doc.attribute(sp, "Id"@) == Some(
                markup::read_text(draft.id + "-SignedProperties"@),
            )
            &&& forall|i: int|
                0 <= i < draft.files.len() ==> doc.attribute(#[trigger] list[i], "Id"@) == Some(
                    markup::read_text(draft.id + "-RefId"@ + text::decimal(i as nat)),
                )
            &&& draft.unsigned is Some ==> doc.attribute(stamps[0], "Id"@) == Some(
                markup::read_text(draft.id + "-TS"@),
            )
        }),
{
    lemma_parts(draft, doc, sig, sp);
    let info = doc.child(sig, ns::DSIG@, "SignedInfo"@)->Some_0;
    lemma_references(doc, draft, info);
    let d = template::certificate_digest(draft);
    let s = x509::issuer_serial_outcome(draft.cert_der)->Ok_0;
    markup::lemma_attribute(doc, elements::signature(draft, d, s), sig, 2, "Id"@);
    readback::lemma_find_one("Id"@, draft.id, "Id"@);
    markup::lemma_attribute(doc, elements::signed_properties(draft, d, s), sp, 5, "Id"@);
    readback::lemma_find_one("Id"@, draft.signed_properties_id(), "Id"@);
    readback::lemma_value_read(draft, d, s, doc, sig);
    let value = doc.child(sig, ns::DSIG@, "SignatureValue"@)->Some_0;
    markup::lemma_attribute(doc, elements::signature_value(draft), value, 3, "Id"@);
    readback::lemma_find_one("Id"@, draft.id + "-SIG"@, "Id"@);
    if let Some(u) = draft.unsigned {
        let usp = lemma_unsigned_found(draft, u, doc, sig);
        let tst = readback::lemma_one_stamp(doc, draft.id, u, usp);
        let stamp = elements::signature_timestamp(draft.id, u);
        markup::lemma_attribute(doc, stamp, tst, 7, "Id"@);
        readback::lemma_find_one("Id"@, draft.id + "-TS"@, "Id"@);
    }
}

/// A time-stamping service is asked for the SHA-256 hash of the signature value in canonical form,
/// as it stands in the document that is parsed again.
pub proof fn asked_hash_is_of_the_signature_value(
    signature: &CreatedSignature,
    r: Result<Vec<u8>, LibError>,
    doc: TreeView,
    sig: int,
)
    requires
        call_ensures(CreatedSignature::timestamp_hash, (signature,), r),
        template::document_outcome(signature.draft()) == Ok::<Seq<char>, ErrorView>(doc.source),
        markup::reads_as_written(doc),
        doc.descendants(0, ns::DSIG@, "Signature"@).contains(sig),
        doc.child(sig, ns::DSIG@, "SignatureValue"@) matches Some(value)
            ==> doc.leaf_is_canonical(value, signature.draft().c14n_uri),
    ensures
        ({
            let uri = signature.draft().c14n_uri;
            let value = doc.child(sig, ns::DSIG@, "SignatureValue"@);
            let form = doc.canonical(value->Some_0, uri);
            &&& C14nMethod::is_uri(uri) <==> r is Ok
            &&& r matches Ok(hash) ==> {
                &&& value is Some
                &&& form is Some
                &&& hash@ == ltv::hashed("SHA-256"@, form->Some_0)
            }
            &&& r matches Err(e) ==> e@ == ErrorView::Unsupported(
                "timestamp canonicalization: "@ + uri,
            )
        }),
{
    let uri = signature.draft().c14n_uri;
    readback::built_signature_value_is_covered(signature.draft(), doc, sig, uri);
}

} // verus!
