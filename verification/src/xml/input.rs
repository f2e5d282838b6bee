//! Reading documents.
use bergshamra_c14n::C14nMode;
use bergshamra_xml::{Attribute, NodeId, NodeSet, XmlDocument};
use vstd::prelude::*;
use vstd::string::*;
use vstd::utf8;

use crate::text;
use crate::xml::markup;
use crate::xml::markup::{Markup, Shape, Tag};
use crate::xml::tree;
use crate::xml::tree::{Node, NodeView, Tree, TreeView};

verus! {

/// A node without its attributes: number, depth, name and text.
pub type BareNode = (usize, usize, Option<(Option<String>, String)>, Option<String>);

/// The mathematical counterpart of [`BareNode`].
pub type BareNodeView = (nat, nat, Option<(Option<Seq<char>>, Seq<char>)>, Option<Seq<char>>);

/// The content of a node without its attributes.
pub open spec fn bare_view(node: BareNode) -> BareNodeView {
    (
        node.0 as nat,
        node.1 as nat,
        match node.2 {
            Some((ns, local)) => Some((text::opt_text(ns), local@)),
            None => None,
        },
        text::opt_text(node.3),
    )
}

/// Nodes without their attributes, or the failure as text.
pub open spec fn bare_result(r: Result<Vec<BareNode>, String>) -> Result<
    Seq<BareNodeView>,
    Seq<char>,
> {
    match r {
        Ok(nodes) => Ok(nodes@.map_values(|n: BareNode| bare_view(n))),
        Err(e) => Err(e@),
    }
}

/// The nodes of a document in document order, the root first; or why the text is not well-formed.
pub uninterp spec fn bare_nodes(source: Seq<char>) -> Result<
    Seq<(nat, nat, Option<(Option<Seq<char>>, Seq<char>)>, Option<Seq<char>>)>,
    Seq<char>,
>;

/// Whether nodes came out with the depths, names and texts of some shapes.
pub open spec fn nodes_read(r: Result<Vec<BareNode>, String>, list: Seq<Shape>) -> bool {
    match r {
        Ok(nodes) => {
            &&& nodes@.len() == list.len()
            &&& forall|k: int|
                0 <= k < list.len() ==> {
                    let node = bare_view(#[trigger] nodes@[k]);
                    node.1 == list[k].depth && node.2 == list[k].name && node.3 == list[k].text
                }
        },
        Err(_) => false,
    }
}

/// `bergshamra_xml::XmlDocument::parse` and `parse_doc`, which parse the same text and so fail
/// alike: every node with its number and the count of its ancestors, the name of an element, and
/// the characters of a text node.
///
/// What is written as nested elements, within the depth that the parser allows, reads as these
/// elements: names with their namespaces, and each text as one node with its references resolved.
/// An empty text gives no node, and neither does the XML declaration.
#[verifier::external_body]
fn parse_nodes(source: &str) -> (r: Result<Vec<BareNode>, String>)
    ensures
        bare_result(r) == bare_nodes(source@),
        forall|content: Seq<Markup>|
            (#[trigger] markup::document_text(content)) == source@ && markup::list_is_sound(
                content,
                markup::MAX_NESTING as nat,
            ) ==> nodes_read(r, markup::document_shapes(content)),
{
    let document = XmlDocument::parse(source.to_owned()).map_err(|e| e.to_string())?;
    let doc = document.parse_doc().map_err(|e| e.to_string())?;
    Ok(std::iter::once(doc.root()).chain(doc.descendants(doc.root())).map(|id| (
        id.index(),
        doc.ancestors(id).len(),
        doc.element(id).map(|e| (
            e.name.namespace_uri.as_deref().map(String::from),
            e.name.local_name.to_string(),
        )),
        doc.text_content(id).map(String::from),
    )).collect())
}

/// The attributes of the nodes of a document, by local name and value.
pub uninterp spec fn node_attributes(source: Seq<char>) -> Result<
    Seq<Seq<(Seq<char>, Seq<char>)>>,
    Seq<char>,
>;

/// Attributes of nodes, or the failure as text.
pub open spec fn attributes_result(r: Result<Vec<Vec<(String, String)>>, String>) -> Result<
    Seq<Seq<(Seq<char>, Seq<char>)>>,
    Seq<char>,
> {
    match r {
        Ok(lists) => Ok(lists@.map_values(|l: Vec<(String, String)>| tree::attribute_list(l@))),
        Err(e) => Err(e@),
    }
}

/// Whether the attributes of nodes came out as those of some shapes.
pub open spec fn attributes_read(
    r: Result<Vec<Vec<(String, String)>>, String>,
    list: Seq<Shape>,
) -> bool {
    match r {
        Ok(lists) => {
            &&& lists@.len() == list.len()
            &&& forall|k: int|
                0 <= k < list.len() ==> tree::attribute_list((#[trigger] lists@[k])@)
                    == list[k].attributes
        },
        Err(_) => false,
    }
}

/// `XmlDocument::parse` and `parse_doc` again: the attributes of every node, in the order of the
/// nodes. Those that declare namespaces are not among them, and values have their references
/// resolved.
#[verifier::external_body]
fn parse_attributes(source: &str) -> (r: Result<Vec<Vec<(String, String)>>, String>)
    ensures
        attributes_result(r) == node_attributes(source@),
        bare_nodes(source@) is Ok <==> r is Ok,
        r is Ok ==> r->Ok_0@.len() == bare_nodes(source@)->Ok_0.len(),
        forall|content: Seq<Markup>|
            (#[trigger] markup::document_text(content)) == source@ && markup::list_is_sound(
                content,
                markup::MAX_NESTING as nat,
            ) ==> attributes_read(r, markup::document_shapes(content)),
{
    let document = XmlDocument::parse(source.to_owned()).map_err(|e| e.to_string())?;
    let doc = document.parse_doc().map_err(|e| e.to_string())?;
    let attribute = |a: &Attribute| (a.name.local_name.to_string(), a.value.to_string());
    Ok(std::iter::once(doc.root()).chain(doc.descendants(doc.root())).map(|id| {
        doc.element(id).map_or(Vec::new(), |e| e.attributes.iter().map(attribute).collect())
    }).collect())
}

/// The nodes of a document in document order, the root first; or why the text is not well-formed.
pub open spec fn parsed_document(source: Seq<char>) -> Result<Seq<NodeView>, Seq<char>> {
    match bare_nodes(source) {
        Err(e) => Err(e),
        Ok(nodes) => Ok(
            Seq::new(
                nodes.len(),
                |i: int|
                    NodeView {
                        id: nodes[i].0,
                        depth: nodes[i].1,
                        name: nodes[i].2,
                        attributes: node_attributes(source)->Ok_0[i],
                        text: nodes[i].3,
                    },
            ),
        ),
    }
}

/// Gives nodes their attributes.
fn with_attributes(nodes: Vec<BareNode>, attributes: Vec<Vec<(String, String)>>) -> (r: Vec<Node>)
    requires
        nodes@.len() == attributes@.len(),
    ensures
        r@.len() == nodes@.len(),
        forall|i: int|
            0 <= i < nodes@.len() ==> (#[trigger] r@[i])@ == (NodeView {
                id: bare_view(nodes@[i]).0,
                depth: bare_view(nodes@[i]).1,
                name: bare_view(nodes@[i]).2,
                attributes: tree::attribute_list(attributes@[i]@),
                text: bare_view(nodes@[i]).3,
            }),
{
    let mut rest = nodes;
    let mut lists = attributes;
    let mut reversed: Vec<Node> = Vec::new();
    while rest.len() > 0
        invariant
            rest@.len() == lists@.len(),
            rest@.len() + reversed@.len() == nodes@.len(),
            nodes@.len() == attributes@.len(),
            rest@ == nodes@.take(rest@.len() as int),
            lists@ == attributes@.take(lists@.len() as int),
            forall|k: int|
                0 <= k < reversed@.len() ==> {
                    let i = nodes@.len() - 1 - k;
                    (#[trigger] reversed@[k])@ == (NodeView {
                        id: bare_view(nodes@[i]).0,
                        depth: bare_view(nodes@[i]).1,
                        name: bare_view(nodes@[i]).2,
                        attributes: tree::attribute_list(attributes@[i]@),
                        text: bare_view(nodes@[i]).3,
                    })
                },
        decreases rest@.len(),
    {
        if let Some((id, depth, name, text)) = rest.pop() {
            if let Some(list) = lists.pop() {
                reversed.push(Node { id, depth, name, attributes: list, text });
            }
        }
    }
    let mut out: Vec<Node> = Vec::new();
    let ghost all = reversed@;
    while reversed.len() > 0
        invariant
            reversed@.len() + out@.len() == all.len(),
            reversed@ == all.take(reversed@.len() as int),
            forall|i: int|
                0 <= i < out@.len() ==> #[trigger] out@[i] == all[all.len() - 1 - i],
        decreases reversed@.len(),
    {
        if let Some(node) = reversed.pop() {
            out.push(node);
        }
    }
    assert forall|i: int| 0 <= i < nodes@.len() implies (#[trigger] out@[i])@ == (NodeView {
        id: bare_view(nodes@[i]).0,
        depth: bare_view(nodes@[i]).1,
        name: bare_view(nodes@[i]).2,
        attributes: tree::attribute_list(attributes@[i]@),
        text: bare_view(nodes@[i]).3,
    }) by {
        assert(out@[i] == all[all.len() - 1 - i]);
    }
    out
}

/// Whether a text is written from nested elements.
pub open spec fn is_written(source: Seq<char>) -> bool {
    exists|content: Seq<Markup>|
        (#[trigger] markup::document_text(content)) == source && markup::list_is_sound(
            content,
            markup::MAX_NESTING as nat,
        )
}

/// Parses a document. What is written from nested elements parses, and reads as it was written.
pub fn parse(source: &str) -> (r: Result<Tree, String>)
    ensures
        match r {
            Ok(t) => t@.source == source@ && parsed_document(source@) == Ok::<
                Seq<NodeView>,
                Seq<char>,
            >(t@.nodes) && markup::reads_as_written(t@),
            Err(e) => parsed_document(source@) == Err::<Seq<NodeView>, Seq<char>>(e@)
                && !is_written(source@),
        },
{
    let bare = match parse_nodes(source) {
        Ok(b) => b,
        Err(e) => {
            return Err(e);
        },
    };
    match parse_attributes(source) {
        Ok(attributes) => {
            assert(bare@.len() == bare_nodes(source@)->Ok_0.len());
            let nodes = with_attributes(bare, attributes);
            let t = Tree { source: source.to_owned(), nodes };
            assert(t@.nodes =~= parsed_document(source@)->Ok_0);
            assert forall|content: Seq<Markup>|
                (#[trigger] markup::document_text(content)) == t@.source && markup::list_is_sound(
                    content,
                    markup::MAX_NESTING as nat,
                ) implies markup::holds(t@, markup::document_shapes(content), 0) && t@.nodes.len()
                == markup::document_shapes(content).len() by {
                let list = markup::document_shapes(content);
                assert forall|k: int| 0 <= k < list.len() implies markup::shape_of(
                    #[trigger] t@.nodes[k],
                ) == list[k] by {
                    assert(t@.nodes[k] == nodes@[k]@);
                    assert(bare_view(bare@[k]).1 == list[k].depth);
                    assert(tree::attribute_list(attributes@[k]@) == list[k].attributes);
                }
            }
            Ok(t)
        },
        Err(e) => Err(e),
    }
}

/// An optional value as a list.
pub open spec fn as_list(value: Option<Seq<char>>) -> Seq<Seq<char>> {
    match value {
        Some(v) => seq![v],
        None => Seq::empty(),
    }
}

/// The values of the identifying attributes of a node.
pub open spec fn node_ids(node: NodeView) -> Seq<Seq<char>> {
    if node.name is Some {
        as_list(node.attribute("Id"@)) + as_list(node.attribute("ID"@)) + as_list(
            node.attribute("id"@),
        )
    } else {
        Seq::empty()
    }
}

/// The values of all identifying attributes.
pub open spec fn ids(nodes: Seq<NodeView>) -> Seq<Seq<char>>
    decreases nodes.len(),
{
    if nodes.len() == 0 {
        Seq::empty()
    } else {
        ids(nodes.drop_last()) + node_ids(nodes.last())
    }
}

/// The first value of a list that occurred before.
pub open spec fn first_repeated(list: Seq<Seq<char>>) -> Option<Seq<char>>
    decreases list.len(),
{
    if list.len() == 0 {
        None
    } else {
        match first_repeated(list.drop_last()) {
            Some(v) => Some(v),
            None => if list.drop_last().contains(list.last()) {
                Some(list.last())
            } else {
                None
            },
        }
    }
}

/// A list repeats a value exactly if it holds one twice.
pub proof fn repeated_means_twice(list: Seq<Seq<char>>)
    ensures
        first_repeated(list) is None <==> list.no_duplicates(),
    decreases list.len(),
{
    if list.len() > 0 {
        let front = list.drop_last();
        repeated_means_twice(front);
        assert(forall|i: int| 0 <= i < front.len() ==> front[i] == list[i]);
        if !front.no_duplicates() {
            let (i, j) = choose|i: int, j: int|
                0 <= i < front.len() && 0 <= j < front.len() && i != j && front[i] == front[j];
            assert(list[i] == list[j]);
        } else if front.contains(list.last()) {
            let k = front.index_of(list.last());
            assert(list[k] == list[list.len() - 1]);
        }
    }
}

/// What is wrong with the identifying attributes of a document, if anything is.
pub open spec fn id_outcome(nodes: Seq<NodeView>) -> Result<(), Seq<char>> {
    match first_repeated(ids(nodes)) {
        Some(value) => Err("invalid XML structure: duplicate ID: "@ + value),
        None => Ok(()),
    }
}

/// `XmlDocument::build_id_map`: fails exactly if one value identifies two things, with the first
/// such value. Nothing is said of text that does not parse.
#[verifier::external_body]
pub(crate) fn check_ids(source: &str) -> (r: Result<(), String>)
    ensures
        parsed_document(source@) is Ok ==> text::check_view(r) == id_outcome(
            parsed_document(source@)->Ok_0,
        ),
{
    let document = XmlDocument::parse(source.to_owned()).map_err(|e| e.to_string())?;
    let doc = document.parse_doc().map_err(|e| e.to_string())?;
    document.build_id_map(&doc).map(|_ids| ()).map_err(|e| e.to_string())
}

/// How a part of a document is brought into its canonical form.
#[derive(Clone, Copy)]
pub enum C14nMethod {
    /// Canonical XML 1.0.
    Inclusive,
    /// Canonical XML 1.0 with comments.
    InclusiveWithComments,
    /// Canonical XML 1.1.
    Inclusive11,
    /// Canonical XML 1.1 with comments.
    Inclusive11WithComments,
    /// Exclusive Canonical XML 1.0.
    Exclusive,
    /// Exclusive Canonical XML 1.0 with comments.
    ExclusiveWithComments,
}

pub const C14N: &'static str = "http://www.w3.org/TR/2001/REC-xml-c14n-20010315";

pub const C14N_WITH_COMMENTS: &'static str =
    "http://www.w3.org/TR/2001/REC-xml-c14n-20010315#WithComments";

pub const C14N11: &'static str = "http://www.w3.org/2006/12/xml-c14n11";

pub const C14N11_WITH_COMMENTS: &'static str = "http://www.w3.org/2006/12/xml-c14n11#WithComments";

pub const EXC_C14N: &'static str = "http://www.w3.org/2001/10/xml-exc-c14n#";

pub const EXC_C14N_WITH_COMMENTS: &'static str =
    "http://www.w3.org/2001/10/xml-exc-c14n#WithComments";

impl C14nMethod {
    /// The identifier of the method.
    pub open spec fn uri(self) -> Seq<char> {
        match self {
            C14nMethod::Inclusive => C14N@,
            C14nMethod::InclusiveWithComments => C14N_WITH_COMMENTS@,
            C14nMethod::Inclusive11 => C14N11@,
            C14nMethod::Inclusive11WithComments => C14N11_WITH_COMMENTS@,
            C14nMethod::Exclusive => EXC_C14N@,
            C14nMethod::ExclusiveWithComments => EXC_C14N_WITH_COMMENTS@,
        }
    }

    /// Whether a text identifies a method.
    pub open spec fn is_uri(uri: Seq<char>) -> bool {
        uri == C14N@ || uri == C14N_WITH_COMMENTS@ || uri == C14N11@ || uri
            == C14N11_WITH_COMMENTS@ || uri == EXC_C14N@ || uri == EXC_C14N_WITH_COMMENTS@
    }

    /// Whether a text identifies a method that declares only the namespaces in use.
    pub open spec fn is_exclusive(uri: Seq<char>) -> bool {
        uri == EXC_C14N@ || uri == EXC_C14N_WITH_COMMENTS@
    }

    /// Finds the method that a text identifies.
    pub fn from_uri(uri: &str) -> (r: Option<C14nMethod>)
        ensures
            match r {
                Some(m) => m.uri() == uri@,
                None => !C14nMethod::is_uri(uri@),
            },
    {
        if text::same(uri, C14N) {
            Some(C14nMethod::Inclusive)
        } else if text::same(uri, C14N_WITH_COMMENTS) {
            Some(C14nMethod::InclusiveWithComments)
        } else if text::same(uri, C14N11) {
            Some(C14nMethod::Inclusive11)
        } else if text::same(uri, C14N11_WITH_COMMENTS) {
            Some(C14nMethod::Inclusive11WithComments)
        } else if text::same(uri, EXC_C14N) {
            Some(C14nMethod::Exclusive)
        } else if text::same(uri, EXC_C14N_WITH_COMMENTS) {
            Some(C14nMethod::ExclusiveWithComments)
        } else {
            None
        }
    }
}

/// The canonical form of the part of a document below one node, comments left out.
pub uninterp spec fn canonical_form(source: Seq<char>, id: nat, method: Seq<char>) -> Option<
    Seq<u8>,
>;

/// Whether a canonical form is that of the element with some number, where that element holds text
/// only and has at most one attribute.
pub open spec fn is_leaf_form(
    doc: TreeView,
    id: nat,
    method: Seq<char>,
    form: Option<Seq<u8>>,
) -> bool {
    forall|p: int, tag: Tag, text: Seq<char>, depth: nat|
        (#[trigger] markup::stands(doc, Markup::Leaf(tag, text), p, depth)) && doc.nodes[p].id == id
            && markup::namespace_of(tag.prefix) is Some && tag.attributes.len() <= 1 ==> form
            == Some(
            utf8::encode_utf8(
                markup::canonical_leaf(tag, text, C14nMethod::is_exclusive(method)),
            ),
        )
}

/// `bergshamra_c14n::canonicalize_doc` over `NodeSet::tree_without_comments`, on the text parsed
/// anew.
///
/// In a document that is written from nested elements, an element that holds text only comes out
/// as UTF-8: its start tag with the namespaces that are in scope (by an exclusive method, the one
/// of its name) and its attribute, then the text and the end tag.
#[verifier::external_body]
fn canonical_bytes(source: &str, id: usize, method: C14nMethod) -> (r: Option<Vec<u8>>)
    ensures
        text::opt_bytes(r) == canonical_form(source@, id as nat, method.uri()),
        is_written(source@) && parsed_document(source@) is Ok ==> is_leaf_form(
            (TreeView { source: source@, nodes: parsed_document(source@)->Ok_0 }),
            id as nat,
            method.uri(),
            text::opt_bytes(r),
        ),
{
    let mode = match method {
        C14nMethod::Inclusive => C14nMode::Inclusive,
        C14nMethod::InclusiveWithComments => C14nMode::InclusiveWithComments,
        C14nMethod::Inclusive11 => C14nMode::Inclusive11,
        C14nMethod::Inclusive11WithComments => C14nMode::Inclusive11WithComments,
        C14nMethod::Exclusive => C14nMode::Exclusive,
        C14nMethod::ExclusiveWithComments => C14nMode::ExclusiveWithComments,
    };
    let document = XmlDocument::parse(source.to_owned()).ok()?;
    let doc = document.parse_doc().ok()?;
    let part = NodeSet::tree_without_comments(NodeId::new(id), &doc);
    let prefixes: [&str; 0] = [];
    bergshamra_c14n::canonicalize_doc(&doc, mode, Some(&part), &prefixes).ok()
}

impl TreeView {
    /// The canonical form of the part of the document below the node at `a`.
    pub open spec fn canonical(self, a: int, method: Seq<char>) -> Option<Seq<u8>> {
        if 0 <= a < self.nodes.len() {
            canonical_form(self.source, self.nodes[a].id, method)
        } else {
            None
        }
    }

    /// Whether the node at `a`, where it is an element that holds text only, has the canonical
    /// form of such an element.
    pub open spec fn leaf_is_canonical(self, a: int, method: Seq<char>) -> bool {
        0 <= a < self.nodes.len() ==> is_leaf_form(
            self,
            self.nodes[a].id,
            method,
            self.canonical(a, method),
        )
    }
}

impl Tree {
    /// The canonical form of the part of the document below the node at `a`.
    ///
    /// In a parsed document that is written from nested elements, this settles the form of an
    /// element that holds text only.
    pub fn canonicalize(&self, a: usize, method: C14nMethod) -> (r: Option<Vec<u8>>)
        ensures
            text::opt_bytes(r) == self@.canonical(a as int, method.uri()),
            is_written(self@.source) && parsed_document(self@.source) == Ok::<
                Seq<NodeView>,
                Seq<char>,
            >(self@.nodes) ==> self@.leaf_is_canonical(a as int, method.uri()),
    {
        if a >= self.nodes.len() {
            return None;
        }
        assert(self@.nodes[a as int] == self.nodes@[a as int]@);
        assert(self@ == (TreeView { source: self@.source, nodes: self@.nodes }));
        canonical_bytes(self.source.as_str(), self.nodes[a].id, method)
    }
}

/// The identifiers of canonicalization methods: with comments they go on as without.
pub proof fn comments_are_named_at_the_end()
    ensures
        C14nMethod::Inclusive.uri() == "http://www.w3.org/TR/2001/REC-xml-c14n-20010315"@,
        C14nMethod::Inclusive11.uri() == "http://www.w3.org/2006/12/xml-c14n11"@,
        C14nMethod::Exclusive.uri() == "http://www.w3.org/2001/10/xml-exc-c14n#"@,
        C14nMethod::InclusiveWithComments.uri() == C14nMethod::Inclusive.uri() + "#WithComments"@,
        C14nMethod::Inclusive11WithComments.uri() == C14nMethod::Inclusive11.uri()
            + "#WithComments"@,
        C14nMethod::ExclusiveWithComments.uri() == C14nMethod::Exclusive.uri() + "WithComments"@,
{
    reveal_strlit("http://www.w3.org/TR/2001/REC-xml-c14n-20010315");
    reveal_strlit("http://www.w3.org/TR/2001/REC-xml-c14n-20010315#WithComments");
    reveal_strlit("http://www.w3.org/2006/12/xml-c14n11");
    reveal_strlit("http://www.w3.org/2006/12/xml-c14n11#WithComments");
    reveal_strlit("http://www.w3.org/2001/10/xml-exc-c14n#");
    reveal_strlit("http://www.w3.org/2001/10/xml-exc-c14n#WithComments");
    reveal_strlit("#WithComments");
    reveal_strlit("WithComments");
    assert(C14N_WITH_COMMENTS@ =~= C14N@ + "#WithComments"@);
    assert(C14N11_WITH_COMMENTS@ =~= C14N11@ + "#WithComments"@);
    assert(EXC_C14N_WITH_COMMENTS@ =~= EXC_C14N@ + "WithComments"@);
}

/// A canonicalization method is found by its identifier, and by nothing else.
pub proof fn method_is_found_by_its_uri(method: C14nMethod, uri: &str, r: Option<C14nMethod>)
    requires
        call_ensures(C14nMethod::from_uri, (uri,), r),
    ensures
        uri@ == method.uri() <==> r == Some(method),
        C14nMethod::is_uri(uri@) <==> r is Some,
        C14nMethod::is_exclusive(uri@) <==> r == Some(C14nMethod::Exclusive) || r == Some(
            C14nMethod::ExclusiveWithComments,
        ),
{
    reveal_strlit("http://www.w3.org/TR/2001/REC-xml-c14n-20010315");
    reveal_strlit("http://www.w3.org/TR/2001/REC-xml-c14n-20010315#WithComments");
    reveal_strlit("http://www.w3.org/2006/12/xml-c14n11");
    reveal_strlit("http://www.w3.org/2006/12/xml-c14n11#WithComments");
    reveal_strlit("http://www.w3.org/2001/10/xml-exc-c14n#");
    reveal_strlit("http://www.w3.org/2001/10/xml-exc-c14n#WithComments");
    assert(C14N@.len() == 47 && C14N_WITH_COMMENTS@.len() == 60);
    assert(C14N11@.len() == 36 && C14N11_WITH_COMMENTS@.len() == 49);
    assert(EXC_C14N@.len() == 39 && EXC_C14N_WITH_COMMENTS@.len() == 51);
}

/// A parsed document has one node for each that the parser found, in order, with the number, depth,
/// name, text and attributes that the parser gives.
pub proof fn document_has_what_the_parser_found(source: Seq<char>)
    ensures
        bare_nodes(source) matches Err(e) ==> parsed_document(source) == Err::<
            Seq<NodeView>,
            Seq<char>,
        >(e),
        bare_nodes(source) matches Ok(found) ==> {
            let nodes = parsed_document(source)->Ok_0;
            &&& parsed_document(source) is Ok
            &&& nodes.len() == found.len()
            &&& forall|i: int|
                0 <= i < nodes.len() ==> {
                    &&& (#[trigger] nodes[i]).id == found[i].0
                    &&& nodes[i].depth == found[i].1
                    &&& nodes[i].name == found[i].2
                    &&& nodes[i].text == found[i].3
                    &&& nodes[i].attributes == node_attributes(source)->Ok_0[i]
                }
        },
{
}

/// Identifying attributes are looked for in every node: two lists of nodes one after the other have
/// the values of the one and then those of the other, and text has none.
pub proof fn ids_go_node_by_node(first: Seq<NodeView>, second: Seq<NodeView>, node: NodeView)
    ensures
        ids(first + second) == ids(first) + ids(second),
        node.name is None ==> ids(seq![node]).len() == 0,
        node.name is Some ==> {
            &&& node.attribute("Id"@) matches Some(v) ==> ids(seq![node]).contains(v)
            &&& node.attribute("ID"@) matches Some(v) ==> ids(seq![node]).contains(v)
            &&& node.attribute("id"@) matches Some(v) ==> ids(seq![node]).contains(v)
        },
        ids(seq![node]).len() <= 3,
    decreases second.len(),
{
    if second.len() == 0 {
        assert(first + second =~= first);
        assert(ids(first) + ids(second) =~= ids(first));
    } else {
        let front = second.drop_last();
        ids_go_node_by_node(first, front, node);
        assert((first + second).drop_last() =~= first + front);
        assert(ids(first + second) =~= ids(first) + ids(second));
    }
    let own = node_ids(node);
    assert(seq![node].drop_last() =~= Seq::<NodeView>::empty());
    assert(seq![node].last() == node);
    reveal_with_fuel(ids, 2);
    assert(ids(seq![node]) =~= own);
    if node.name is Some {
        let (a, b, c) = (
            as_list(node.attribute("Id"@)),
            as_list(node.attribute("ID"@)),
            as_list(node.attribute("id"@)),
        );
        if let Some(v) = node.attribute("Id"@) {
            assert(own[0] == v);
        }
        if let Some(v) = node.attribute("ID"@) {
            assert(own[a.len() as int] == v);
        }
        if let Some(v) = node.attribute("id"@) {
            assert(own[(a.len() + b.len()) as int] == v);
        }
    }
}

} // verus!
