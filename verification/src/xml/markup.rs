//! Documents as nested elements: how they are written, and how they read.
use vstd::prelude::*;

use crate::ns;
use crate::xml::output;
use crate::xml::tree;
use crate::xml::tree::{NodeView, TreeView};

verus! {

/// Prefix, local name and attributes of an element.
pub struct Tag {
    pub prefix: Seq<char>,
    pub local: Seq<char>,
    pub attributes: Seq<(Seq<char>, Seq<char>)>,
}

/// An element with what it holds: elements, text, or nothing at all.
pub enum Markup {
    Parent(Tag, Seq<Markup>),
    Leaf(Tag, Seq<char>),
    Empty(Tag),
}

impl Tag {
    /// The name as it is written.
    pub open spec fn name(self) -> Seq<char> {
        self.prefix + seq![':'] + self.local
    }
}

impl Markup {
    /// The tag of the element.
    pub open spec fn tag(self) -> Tag {
        match self {
            Markup::Parent(tag, _) => tag,
            Markup::Leaf(tag, _) => tag,
            Markup::Empty(tag) => tag,
        }
    }
}

/// How an element is written.
pub open spec fn markup_text(m: Markup) -> Seq<char>
    decreases m,
{
    match m {
        Markup::Parent(tag, list) => output::element(tag.name(), tag.attributes, list_text(list)),
        Markup::Leaf(tag, text) => output::element(
            tag.name(),
            tag.attributes,
            output::escaped(text, false),
        ),
        Markup::Empty(tag) => output::empty_tag(tag.name(), tag.attributes),
    }
}

/// How elements are written one after the other.
pub open spec fn list_text(list: Seq<Markup>) -> Seq<char>
    decreases list,
{
    if list.len() == 0 {
        Seq::empty()
    } else {
        list_text(list.drop_last()) + markup_text(list.last())
    }
}

/// The namespace that a prefix stands for.
pub open spec fn namespace_of(prefix: Seq<char>) -> Option<Seq<char>> {
    if prefix == "asic"@ {
        Some(ns::ASIC@)
    } else if prefix == "ds"@ {
        Some(ns::DSIG@)
    } else if prefix == "xades"@ {
        Some(ns::XADES@)
    } else {
        None
    }
}

/// The declarations of the namespaces.
pub open spec fn declarations() -> Seq<(Seq<char>, Seq<char>)> {
    seq![("xmlns:asic"@, ns::ASIC@), ("xmlns:ds"@, ns::DSIG@), ("xmlns:xades"@, ns::XADES@)]
}

/// The document around some elements: the XML declaration, and the document element, which
/// declares the namespaces.
pub open spec fn document_text(content: Seq<Markup>) -> Seq<char> {
    "<?xml version=\"1.0\" encoding=\"UTF-8\"?>"@ + output::element(
        "asic:XAdESSignatures"@,
        declarations(),
        list_text(content),
    )
}

/// A name of ASCII letters and digits without a prefix.
pub open spec fn simple_name(name: Seq<char>) -> bool {
    output::completes_name(name, 0, true, true)
}

/// Whether a tag is well-formed: a name of letters and digits with a prefix that is bound, and
/// attributes with different names without a prefix, none of which declares a namespace.
pub open spec fn tag_is_sound(tag: Tag) -> bool {
    &&& output::plain_name(tag.name())
    &&& namespace_of(tag.prefix) is Some
    &&& output::attribute_names(tag.attributes)
    &&& forall|i: int|
        0 <= i < tag.attributes.len() ==> simple_name((#[trigger] tag.attributes[i]).0)
            && tag.attributes[i].0 != "xmlns"@
}

/// Whether an element and all that it holds are well-formed and nested no deeper than `room`.
pub open spec fn is_sound(m: Markup, room: nat) -> bool
    decreases m,
{
    &&& room > 0
    &&& tag_is_sound(m.tag())
    &&& match m {
        Markup::Parent(_, list) => list_is_sound(list, (room - 1) as nat),
        _ => true,
    }
}

/// Whether elements are well-formed and nested no deeper than `room`.
pub open spec fn list_is_sound(list: Seq<Markup>, room: nat) -> bool
    decreases list,
{
    list.len() == 0 || (list_is_sound(list.drop_last(), room) && is_sound(list.last(), room))
}

/// How deep elements may be nested below the document element.
pub const MAX_NESTING: usize = 127;

/// A character as it reads: one that may not occur in a document has been replaced.
pub open spec fn read_char(c: char) -> char {
    if output::is_xml_char(c) {
        c
    } else {
        '\u{FFFD}'
    }
}

/// A text as it reads.
pub open spec fn read_text(text: Seq<char>) -> Seq<char> {
    text.map_values(|c: char| read_char(c))
}

/// Attributes as they read.
pub open spec fn read_attributes(attributes: Seq<(Seq<char>, Seq<char>)>) -> Seq<
    (Seq<char>, Seq<char>),
> {
    attributes.map_values(|a: (Seq<char>, Seq<char>)| (a.0, read_text(a.1)))
}

/// Whether all characters of a text may occur in a document.
pub open spec fn is_proper(text: Seq<char>) -> bool {
    forall|i: int| 0 <= i < text.len() ==> output::is_xml_char(#[trigger] text[i])
}

/// A text of characters that may occur in a document reads as it is.
pub proof fn proper_text_is_kept(text: Seq<char>)
    requires
        is_proper(text),
    ensures
        read_text(text) == text,
{
    assert(read_text(text) =~= text);
}

/// An attribute value in canonical form: as it is written, but for `>`, which stands for itself.
pub open spec fn canonical_value(value: Seq<char>) -> Seq<char>
    decreases value.len(),
{
    if value.len() == 0 {
        Seq::empty()
    } else {
        canonical_value(value.drop_last()) + if value.last() == '>' {
            seq!['>']
        } else {
            output::escaped_char(value.last(), true)
        }
    }
}

/// An attribute in canonical form, where there is one.
pub open spec fn canonical_attribute(attributes: Seq<(Seq<char>, Seq<char>)>) -> Seq<char> {
    if attributes.len() == 0 {
        Seq::empty()
    } else {
        seq![' '] + attributes[0].0 + seq!['=', '"'] + canonical_value(attributes[0].1) + seq!['"']
    }
}

/// An element of a document that holds text only, in canonical form by itself: with the
/// declarations of all namespaces, or by an exclusive method with that of its own namespace.
pub open spec fn canonical_leaf(tag: Tag, text: Seq<char>, exclusive: bool) -> Seq<char> {
    let declared = if exclusive {
        seq![("xmlns:"@ + tag.prefix, namespace_of(tag.prefix)->Some_0)]
    } else {
        declarations()
    };
    seq!['<'] + tag.name() + output::attributes_text(declared) + canonical_attribute(tag.attributes)
        + seq!['>'] + output::escaped(text, false) + output::end_tag(tag.name())
}

/// A node but for its number.
pub struct Shape {
    pub depth: nat,
    pub name: Option<(Option<Seq<char>>, Seq<char>)>,
    pub attributes: Seq<(Seq<char>, Seq<char>)>,
    pub text: Option<Seq<char>>,
}

/// The shape of a node.
pub open spec fn shape_of(node: NodeView) -> Shape {
    Shape { depth: node.depth, name: node.name, attributes: node.attributes, text: node.text }
}

/// The shape of the node for an element.
pub open spec fn tag_shape(tag: Tag, depth: nat) -> Shape {
    Shape {
        depth,
        name: Some((namespace_of(tag.prefix), tag.local)),
        attributes: read_attributes(tag.attributes),
        text: None,
    }
}

/// The shape of the node for some text.
pub open spec fn text_shape(text: Seq<char>, depth: nat) -> Shape {
    Shape { depth, name: None, attributes: Seq::empty(), text: Some(read_text(text)) }
}

/// The shapes of the nodes that an element reads as, in document order.
pub open spec fn shapes(m: Markup, depth: nat) -> Seq<Shape>
    decreases m,
{
    match m {
        Markup::Parent(tag, list) => seq![tag_shape(tag, depth)] + list_shapes(list, depth + 1),
        Markup::Leaf(tag, text) => if text.len() == 0 {
            seq![tag_shape(tag, depth)]
        } else {
            seq![tag_shape(tag, depth), text_shape(text, depth + 1)]
        },
        Markup::Empty(tag) => seq![tag_shape(tag, depth)],
    }
}

/// The shapes of the nodes that elements read as, in document order.
pub open spec fn list_shapes(list: Seq<Markup>, depth: nat) -> Seq<Shape>
    decreases list,
{
    if list.len() == 0 {
        Seq::empty()
    } else {
        list_shapes(list.drop_last(), depth) + shapes(list.last(), depth)
    }
}

/// The shapes of the nodes that the document around some elements reads as: the document itself,
/// the document element, and the elements.
pub open spec fn document_shapes(content: Seq<Markup>) -> Seq<Shape> {
    seq![
        Shape { depth: 0, name: None, attributes: Seq::empty(), text: None },
        Shape {
            depth: 1,
            name: Some((Some(ns::ASIC@), "XAdESSignatures"@)),
            attributes: Seq::empty(),
            text: None,
        },
    ] + list_shapes(content, 2)
}

/// Whether a document that is written from elements has the nodes that these read as.
pub open spec fn reads_as_written(doc: TreeView) -> bool {
    forall|content: Seq<Markup>| #[trigger]
        document_text(content) == doc.source && list_is_sound(content, MAX_NESTING as nat)
            ==> holds(doc, document_shapes(content), 0) && doc.nodes.len() == document_shapes(
            content,
        ).len()
}

/// Whether nodes from the place `a` on have some shapes.
pub open spec fn holds(doc: TreeView, list: Seq<Shape>, a: int) -> bool {
    &&& 0 <= a
    &&& a + list.len() <= doc.nodes.len()
    &&& forall|k: int|
        a <= k < a + list.len() ==> shape_of(#[trigger] doc.nodes[k]) == list[k - a]
}

/// Whether what starts at a place is over before the place `end`, as far as `depth` tells.
pub open spec fn ends(doc: TreeView, end: int, depth: nat) -> bool {
    end == doc.nodes.len() || (0 <= end < doc.nodes.len() && doc.nodes[end].depth <= depth)
}

/// Whether the part of a document that starts at the place `a` is an element.
pub open spec fn stands(doc: TreeView, m: Markup, a: int, depth: nat) -> bool {
    holds(doc, shapes(m, depth), a) && ends(doc, a + shapes(m, depth).len(), depth)
}

/// Where the element at `i` of a list starts, if the list starts at `a`.
pub open spec fn place(list: Seq<Markup>, a: int, depth: nat, i: int) -> int {
    a + list_shapes(list.take(i), depth).len()
}

/// Whether an element has a name.
pub open spec fn is_named(m: Markup, ns: Seq<char>, local: Seq<char>) -> bool {
    namespace_of(m.tag().prefix) == Some(ns) && m.tag().local == local
}

/// Elements read one after the other.
pub(crate) proof fn lemma_list_concat(a: Seq<Markup>, b: Seq<Markup>, depth: nat)
    ensures
        list_shapes(a + b, depth) == list_shapes(a, depth) + list_shapes(b, depth),
    decreases b.len(),
{
    if b.len() == 0 {
        assert(a + b =~= a);
        assert(list_shapes(a, depth) + list_shapes(b, depth) =~= list_shapes(a, depth));
    } else {
        assert((a + b).drop_last() =~= a + b.drop_last());
        assert((a + b).last() == b.last());
        lemma_list_concat(a, b.drop_last(), depth);
        assert(list_shapes(a + b, depth) =~= list_shapes(a, depth) + list_shapes(b, depth));
    }
}

/// Elements are written one after the other.
pub proof fn lemma_text_concat(a: Seq<Markup>, b: Seq<Markup>)
    ensures
        list_text(a + b) == list_text(a) + list_text(b),
    decreases b.len(),
{
    if b.len() == 0 {
        assert(a + b =~= a);
        assert(list_text(a) + list_text(b) =~= list_text(a));
    } else {
        assert((a + b).drop_last() =~= a + b.drop_last());
        assert((a + b).last() == b.last());
        lemma_text_concat(a, b.drop_last());
        assert(list_text(a + b) =~= list_text(a) + list_text(b));
    }
}

/// An element is written as it is in a list.
pub proof fn lemma_text_one(m: Markup)
    ensures
        list_text(seq![m]) == markup_text(m),
{
    let nothing = Seq::<Markup>::empty();
    assert(seq![m].drop_last() =~= nothing);
    assert(list_text(nothing) == Seq::<char>::empty());
    assert(list_text(seq![m]) == list_text(nothing) + markup_text(m));
    assert(list_text(seq![m]) =~= markup_text(m));
}

/// An element reads as it does in a list.
pub(crate) proof fn lemma_one(m: Markup, depth: nat)
    ensures
        list_shapes(seq![m], depth) == shapes(m, depth),
{
    let nothing = Seq::<Markup>::empty();
    assert(seq![m].drop_last() =~= nothing);
    assert(list_shapes(nothing, depth) == Seq::<Shape>::empty());
    assert(list_shapes(seq![m], depth) == list_shapes(nothing, depth) + shapes(m, depth));
    assert(list_shapes(seq![m], depth) =~= shapes(m, depth));
}

/// An element starts with its own node; the others are deeper.
pub(crate) proof fn lemma_depths(m: Markup, depth: nat)
    ensures
        shapes(m, depth).len() >= 1,
        shapes(m, depth)[0] == tag_shape(m.tag(), depth),
        forall|k: int|
            0 < k < shapes(m, depth).len() ==> (#[trigger] shapes(m, depth)[k]).depth > depth,
    decreases m,
{
    if let Markup::Parent(tag, list) = m {
        lemma_list_depths(list, depth + 1);
        assert forall|k: int| 0 < k < shapes(m, depth).len() implies (
        #[trigger] shapes(m, depth)[k]).depth > depth by {
            assert(shapes(m, depth)[k] == list_shapes(list, depth + 1)[k - 1]);
        }
    }
}

proof fn lemma_list_depths(list: Seq<Markup>, depth: nat)
    ensures
        forall|k: int|
            0 <= k < list_shapes(list, depth).len() ==> depth <= (#[trigger] list_shapes(
                list,
                depth,
            )[k]).depth,
    decreases list,
{
    if list.len() > 0 {
        let front = list_shapes(list.drop_last(), depth);
        let last = shapes(list.last(), depth);
        lemma_list_depths(list.drop_last(), depth);
        lemma_depths(list.last(), depth);
        assert forall|k: int| 0 <= k < list_shapes(list, depth).len() implies (
        #[trigger] list_shapes(list, depth)[k]).depth >= depth by {
            if k < front.len() {
                assert(list_shapes(list, depth)[k] == front[k]);
            } else {
                assert(list_shapes(list, depth)[k] == last[k - front.len()]);
            }
        }
    }
}

/// Nodes of the depth of a list start one of its elements.
pub(crate) proof fn lemma_heads(list: Seq<Markup>, depth: nat, k: int)
    requires
        0 <= k < list_shapes(list, depth).len(),
        list_shapes(list, depth)[k].depth == depth,
    ensures
        exists|i: int|
            0 <= i < list.len() && k == #[trigger] list_shapes(list.take(i), depth).len(),
    decreases list.len(),
{
    let front = list.drop_last();
    let head = list_shapes(front, depth);
    if k < head.len() {
        assert(list_shapes(list, depth)[k] == head[k]);
        lemma_heads(front, depth, k);
        let i = choose|i: int|
            0 <= i < front.len() && k == #[trigger] list_shapes(front.take(i), depth).len();
        assert(front.take(i) =~= list.take(i));
    } else {
        lemma_depths(list.last(), depth);
        assert(list_shapes(list, depth)[k] == shapes(list.last(), depth)[k - head.len()]);
        assert(list.take(list.len() - 1) =~= front);
        assert(k == list_shapes(list.take(list.len() - 1), depth).len());
    }
}

/// A list in a document: its shapes are there, and it ends where a node is less deep.
pub open spec fn list_stands(doc: TreeView, list: Seq<Markup>, a: int, depth: nat) -> bool {
    &&& depth > 0
    &&& holds(doc, list_shapes(list, depth), a)
    &&& ends(doc, a + list_shapes(list, depth).len(), (depth - 1) as nat)
}

/// The elements of a list stand one after the other.
pub proof fn lemma_member(doc: TreeView, list: Seq<Markup>, a: int, depth: nat, i: int)
    requires
        list_stands(doc, list, a, depth),
        0 <= i < list.len(),
    ensures
        stands(doc, list[i], place(list, a, depth, i), depth),
        a <= place(list, a, depth, i) < a + list_shapes(list, depth).len(),
        place(list, a, depth, i + 1) == place(list, a, depth, i) + shapes(list[i], depth).len(),
        place(list, a, depth, i + 1) <= a + list_shapes(list, depth).len(),
{
    let before = list.take(i);
    let after = list.skip(i + 1);
    let all = list_shapes(list, depth);
    let own = shapes(list[i], depth);
    let p = list_shapes(before, depth).len() as int;
    assert(list.take(i + 1) =~= before + seq![list[i]]);
    assert(list =~= list.take(i + 1) + after);
    lemma_list_concat(before, seq![list[i]], depth);
    lemma_list_concat(list.take(i + 1), after, depth);
    lemma_one(list[i], depth);
    lemma_depths(list[i], depth);
    assert forall|k: int| a + p <= k < a + p + own.len() implies shape_of(#[trigger] doc.nodes[k])
        == own[k - (a + p)] by {
        assert(shape_of(doc.nodes[k]) == all[k - a]);
    }
    if i + 1 < list.len() {
        lemma_depths(after[0], depth);
        assert(after =~= seq![after[0]] + after.skip(1));
        lemma_list_concat(seq![after[0]], after.skip(1), depth);
        lemma_one(after[0], depth);
        let end = a + p + own.len();
        assert(list_shapes(after, depth)[0] == shapes(after[0], depth)[0]);
        assert(all[end - a] == list_shapes(after, depth)[0]);
        assert(shape_of(doc.nodes[end]) == all[end - a]);
    } else {
        assert(after =~= Seq::<Markup>::empty());
    }
}

/// Later elements of a list stand later.
pub proof fn lemma_places_ascend(list: Seq<Markup>, a: int, depth: nat, i: int, j: int)
    requires
        0 <= i <= j <= list.len(),
    ensures
        place(list, a, depth, i) <= place(list, a, depth, j),
        i < j ==> place(list, a, depth, i) < place(list, a, depth, j),
    decreases j - i,
{
    if i < j {
        lemma_places_ascend(list, a, depth, i, j - 1);
        assert(list.take(j).drop_last() =~= list.take(j - 1));
        lemma_depths(list[j - 1], depth);
    }
}

/// What an element holds stands behind its own node.
pub proof fn lemma_content(doc: TreeView, tag: Tag, list: Seq<Markup>, a: int, depth: nat)
    requires
        stands(doc, Markup::Parent(tag, list), a, depth),
    ensures
        list_stands(doc, list, a + 1, depth + 1),
        shapes(Markup::Parent(tag, list), depth).len() == 1 + list_shapes(list, depth + 1).len(),
{
    let all = shapes(Markup::Parent(tag, list), depth);
    let inner = list_shapes(list, depth + 1);
    assert forall|k: int| a + 1 <= k < a + 1 + inner.len() implies shape_of(#[trigger] doc.nodes[k])
        == inner[k - (a + 1)] by {
        assert(shape_of(doc.nodes[k]) == all[k - a]);
    }
}

/// What lies inside an element are the nodes behind its own, up to its end.
pub proof fn lemma_extent(doc: TreeView, m: Markup, a: int, depth: nat)
    requires
        stands(doc, m, a, depth),
    ensures
        shape_of(doc.nodes[a]) == tag_shape(m.tag(), depth),
        0 <= a < doc.nodes.len(),
        shapes(m, depth).len() >= 1,
        forall|j: int| doc.is_descendant(a, j) <==> a < j < a + shapes(m, depth).len(),
{
    lemma_depths(m, depth);
    let end = a + shapes(m, depth).len();
    assert(shape_of(doc.nodes[a]) == shapes(m, depth)[0]);
    assert forall|j: int| doc.is_descendant(a, j) <==> a < j < end by {
        if a < j < end {
            assert forall|k: int| a < k <= j implies (#[trigger] doc.nodes[k]).depth
                > doc.nodes[a].depth by {
                assert(shape_of(doc.nodes[k]) == shapes(m, depth)[k - a]);
            }
        }
        if j >= end && doc.is_descendant(a, j) {
            assert(doc.nodes[end].depth > doc.nodes[a].depth);
        }
    }
}

/// The elements of one name directly inside an element.
pub proof fn lemma_children(
    doc: TreeView,
    tag: Tag,
    list: Seq<Markup>,
    a: int,
    depth: nat,
    ns: Seq<char>,
    local: Seq<char>,
)
    requires
        stands(doc, Markup::Parent(tag, list), a, depth),
    ensures
        forall|j: int|
            doc.children(a, ns, local).contains(j) <==> is_member(list, a, depth, ns, local, j),
{
    let m = Markup::Parent(tag, list);
    lemma_extent(doc, m, a, depth);
    lemma_content(doc, tag, list, a, depth);
    let wanted = |j: int| doc.is_child(a, j) && doc.nodes[j].is_element(ns, local);
    tree::matching_is_exact(doc.nodes.len() as int, wanted);
    assert forall|j: int|
        doc.children(a, ns, local).contains(j) <==> is_member(list, a, depth, ns, local, j) by {
        if doc.children(a, ns, local).contains(j) {
            assert(wanted(j));
            let k = j - (a + 1);
            assert(shape_of(doc.nodes[j]) == list_shapes(list, depth + 1)[k]);
            lemma_heads(list, depth + 1, k);
            let i = choose|i: int|
                0 <= i < list.len() && k == #[trigger] list_shapes(list.take(i), depth + 1).len();
            lemma_member(doc, list, a + 1, depth + 1, i);
            lemma_extent(doc, list[i], j, depth + 1);
            assert(j == place(list, a + 1, depth + 1, i));
        }
        if is_member(list, a, depth, ns, local, j) {
            let i = choose|i: int|
                0 <= i < list.len() && j == #[trigger] place(list, a + 1, depth + 1, i) && is_named(
                    list[i],
                    ns,
                    local,
                );
            lemma_member(doc, list, a + 1, depth + 1, i);
            lemma_extent(doc, list[i], j, depth + 1);
            assert(wanted(j));
        }
    }
}

/// Whether one of the elements of a list has a name and stands at `j`, if the element around the
/// list stands at `a`.
pub open spec fn is_member(
    list: Seq<Markup>,
    a: int,
    depth: nat,
    ns: Seq<char>,
    local: Seq<char>,
    j: int,
) -> bool {
    exists|i: int|
        0 <= i < list.len() && j == #[trigger] place(list, a + 1, depth + 1, i) && is_named(
            list[i],
            ns,
            local,
        )
}

/// The first element of one name directly inside an element.
pub proof fn lemma_child(
    doc: TreeView,
    tag: Tag,
    list: Seq<Markup>,
    a: int,
    depth: nat,
    ns: Seq<char>,
    local: Seq<char>,
    i: int,
)
    requires
        stands(doc, Markup::Parent(tag, list), a, depth),
        0 <= i < list.len(),
        is_named(list[i], ns, local),
        forall|k: int| 0 <= k < i ==> !is_named(#[trigger] list[k], ns, local),
    ensures
        doc.child(a, ns, local) == Some(place(list, a + 1, depth + 1, i)),
        stands(doc, list[i], place(list, a + 1, depth + 1, i), depth + 1),
{
    lemma_children(doc, tag, list, a, depth, ns, local);
    lemma_content(doc, tag, list, a, depth);
    lemma_member(doc, list, a + 1, depth + 1, i);
    let found = doc.children(a, ns, local);
    let p = place(list, a + 1, depth + 1, i);
    assert(is_member(list, a, depth, ns, local, p));
    assert(found.contains(p));
    let n = found.index_of(p);
    assert(found.contains(found[0]));
    assert(is_member(list, a, depth, ns, local, found[0]));
    let k = choose|k: int|
        0 <= k < list.len() && found[0] == #[trigger] place(list, a + 1, depth + 1, k) && is_named(
            list[k],
            ns,
            local,
        );
    assert(k >= i);
    lemma_places_ascend(list, a + 1, depth + 1, i, k);
    tree::matching_is_exact(
        doc.nodes.len() as int,
        |j: int| doc.is_child(a, j) && doc.nodes[j].is_element(ns, local),
    );
    if n > 0 {
        assert(found[0] < found[n]);
    }
}

/// An element that holds none of a name.
pub proof fn lemma_no_child(
    doc: TreeView,
    tag: Tag,
    list: Seq<Markup>,
    a: int,
    depth: nat,
    ns: Seq<char>,
    local: Seq<char>,
)
    requires
        stands(doc, Markup::Parent(tag, list), a, depth),
        forall|k: int| 0 <= k < list.len() ==> !is_named(#[trigger] list[k], ns, local),
    ensures
        doc.child(a, ns, local) is None,
{
    lemma_children(doc, tag, list, a, depth, ns, local);
    let found = doc.children(a, ns, local);
    if found.len() > 0 {
        assert(found.contains(found[0]));
    }
}

/// The attributes of an element.
pub proof fn lemma_attribute(doc: TreeView, m: Markup, a: int, depth: nat, name: Seq<char>)
    requires
        stands(doc, m, a, depth),
    ensures
        doc.attribute(a, name) == tree::find_attribute(
            read_attributes(m.tag().attributes),
            name,
        ),
{
    lemma_extent(doc, m, a, depth);
}

/// The characters inside an element that holds text.
pub proof fn lemma_leaf(doc: TreeView, tag: Tag, text: Seq<char>, a: int, depth: nat)
    requires
        stands(doc, Markup::Leaf(tag, text), a, depth),
    ensures
        doc.text(a) == read_text(text),
{
    let m = Markup::Leaf(tag, text);
    lemma_extent(doc, m, a, depth);
    lemma_no_text(doc, a, a + 1);
    let end = a + shapes(m, depth).len();
    if text.len() == 0 {
        assert(read_text(text) =~= Seq::<char>::empty());
    } else {
        assert(shape_of(doc.nodes[a + 1]) == shapes(m, depth)[1]);
        assert(doc.is_descendant(a, a + 1));
        assert(doc.text_before(a, a + 2) =~= read_text(text));
    }
    lemma_text_stays(doc, a, end, doc.nodes.len() as int);
}

proof fn lemma_no_text(doc: TreeView, a: int, n: int)
    requires
        n <= a + 1,
    ensures
        doc.text_before(a, n) == Seq::<char>::empty(),
    decreases n,
{
    if n > 0 {
        lemma_no_text(doc, a, n - 1);
    }
}

proof fn lemma_text_stays(doc: TreeView, a: int, end: int, n: int)
    requires
        0 <= end <= n,
        forall|j: int| doc.is_descendant(a, j) ==> j < end,
    ensures
        doc.text_before(a, n) == doc.text_before(a, end),
    decreases n - end,
{
    if end < n {
        assert(!doc.is_descendant(a, n - 1));
        lemma_text_stays(doc, a, end, n - 1);
    }
}

/// A list is well-formed exactly if its elements are.
pub proof fn lemma_sound_members(list: Seq<Markup>, room: nat)
    ensures
        list_is_sound(list, room) <==> forall|i: int|
            0 <= i < list.len() ==> is_sound(#[trigger] list[i], room),
    decreases list.len(),
{
    if list.len() > 0 {
        let front = list.drop_last();
        lemma_sound_members(front, room);
        assert(forall|i: int| 0 <= i < front.len() ==> front[i] == list[i]);
        assert(list.last() == list[list.len() - 1]);
    }
}

} // verus!
