//! Documents as lists of nodes, and the questions asked of them.
use vstd::prelude::*;
use vstd::string::*;

use crate::text;

verus! {

/// One node of a document.
pub struct Node {
    /// The number by which the parser knows the node.
    pub id: usize,
    /// How many nodes enclose the node.
    pub depth: usize,
    /// Namespace and local name, for an element.
    pub name: Option<(Option<String>, String)>,
    /// Local names and values of the attributes, in order.
    pub attributes: Vec<(String, String)>,
    /// The characters of a text node.
    pub text: Option<String>,
}

/// The mathematical counterpart of [`Node`].
pub struct NodeView {
    pub id: nat,
    pub depth: nat,
    pub name: Option<(Option<Seq<char>>, Seq<char>)>,
    pub attributes: Seq<(Seq<char>, Seq<char>)>,
    pub text: Option<Seq<char>>,
}

/// The contents of a list of attributes.
pub open spec fn attribute_list(attributes: Seq<(String, String)>) -> Seq<(Seq<char>, Seq<char>)> {
    attributes.map_values(|a: (String, String)| (a.0@, a.1@))
}

impl View for Node {
    type V = NodeView;

    open spec fn view(&self) -> NodeView {
        NodeView {
            id: self.id as nat,
            depth: self.depth as nat,
            name: match self.name {
                Some((ns, local)) => Some((text::opt_text(ns), local@)),
                None => None,
            },
            attributes: attribute_list(self.attributes@),
            text: text::opt_text(self.text),
        }
    }
}

/// The contents of a list of nodes.
pub open spec fn node_views(nodes: Seq<Node>) -> Seq<NodeView> {
    nodes.map_values(|n: Node| n@)
}

/// A document: its text, and its nodes in document order with the root first.
pub struct Tree {
    /// The text that was parsed.
    pub source: String,
    /// The nodes.
    pub nodes: Vec<Node>,
}

/// The mathematical counterpart of [`Tree`].
pub struct TreeView {
    pub source: Seq<char>,
    pub nodes: Seq<NodeView>,
}

impl View for Tree {
    type V = TreeView;

    open spec fn view(&self) -> TreeView {
        TreeView { source: self.source@, nodes: node_views(self.nodes@) }
    }
}

/// A list of places in a document, as numbers.
pub open spec fn places(list: Seq<usize>) -> Seq<int> {
    list.map_values(|p: usize| p as int)
}

/// An optional place in a document, as a number.
pub open spec fn opt_place(place: Option<usize>) -> Option<int> {
    match place {
        Some(p) => Some(p as int),
        None => None,
    }
}

/// The places below `n` for which `wanted` holds, in order.
pub open spec fn matching(n: int, wanted: spec_fn(int) -> bool) -> Seq<int>
    decreases n,
{
    if n <= 0 {
        Seq::empty()
    } else if wanted(n - 1) {
        matching(n - 1, wanted).push(n - 1)
    } else {
        matching(n - 1, wanted)
    }
}

/// The first place of a list.
pub open spec fn first(list: Seq<int>) -> Option<int> {
    if list.len() == 0 {
        None
    } else {
        Some(list[0])
    }
}

impl NodeView {
    /// Whether the node is an element of that name.
    pub open spec fn is_element(self, ns: Seq<char>, local: Seq<char>) -> bool {
        self.name == Some((Some(ns), local))
    }

    /// The value of the first attribute with that local name.
    pub open spec fn attribute(self, name: Seq<char>) -> Option<Seq<char>> {
        find_attribute(self.attributes, name)
    }
}

/// The value of the first attribute with that local name.
pub open spec fn find_attribute(
    attributes: Seq<(Seq<char>, Seq<char>)>,
    name: Seq<char>,
) -> Option<Seq<char>>
    decreases attributes.len(),
{
    if attributes.len() == 0 {
        None
    } else if attributes[0].0 == name {
        Some(attributes[0].1)
    } else {
        find_attribute(attributes.skip(1), name)
    }
}

impl TreeView {
    /// Whether the node at `j` lies inside the node at `a`.
    pub open spec fn is_descendant(self, a: int, j: int) -> bool {
        &&& 0 <= a < j < self.nodes.len()
        &&& forall|k: int| a < k <= j ==> (#[trigger] self.nodes[k]).depth > self.nodes[a].depth
    }

    /// Whether the node at `j` lies directly inside the node at `a`.
    pub open spec fn is_child(self, a: int, j: int) -> bool {
        self.is_descendant(a, j) && self.nodes[j].depth == self.nodes[a].depth + 1
    }

    /// Whether the node at `j` is the node at `a`, or lies inside it.
    pub open spec fn is_within(self, a: int, j: int) -> bool {
        a == j || self.is_descendant(a, j)
    }

    /// The elements of one name inside a node, in document order.
    pub open spec fn descendants(self, a: int, ns: Seq<char>, local: Seq<char>) -> Seq<int> {
        matching(
            self.nodes.len() as int,
            |j: int| self.is_descendant(a, j) && self.nodes[j].is_element(ns, local),
        )
    }

    /// The elements of one name directly inside a node, in document order.
    pub open spec fn children(self, a: int, ns: Seq<char>, local: Seq<char>) -> Seq<int> {
        matching(
            self.nodes.len() as int,
            |j: int| self.is_child(a, j) && self.nodes[j].is_element(ns, local),
        )
    }

    /// The first element of one name directly inside a node.
    pub open spec fn child(self, a: int, ns: Seq<char>, local: Seq<char>) -> Option<int> {
        first(self.children(a, ns, local))
    }

    /// The first element of one name directly inside a node, where there is one.
    pub open spec fn child_of(self, a: Option<int>, ns: Seq<char>, local: Seq<char>) -> Option<
        int,
    > {
        match a {
            Some(p) => self.child(p, ns, local),
            None => None,
        }
    }

    /// The value of an attribute of a node.
    pub open spec fn attribute(self, a: int, name: Seq<char>) -> Option<Seq<char>> {
        if 0 <= a < self.nodes.len() {
            self.nodes[a].attribute(name)
        } else {
            None
        }
    }

    /// The value of an attribute of a node, where there is one.
    pub open spec fn attribute_of(self, a: Option<int>, name: Seq<char>) -> Option<Seq<char>> {
        match a {
            Some(p) => self.attribute(p, name),
            None => None,
        }
    }

    /// The characters inside the node at `a` that stand before place `n`.
    pub open spec fn text_before(self, a: int, n: int) -> Seq<char>
        decreases n,
    {
        if n <= 0 {
            Seq::empty()
        } else if self.is_descendant(a, n - 1) && self.nodes[n - 1].text is Some {
            self.text_before(a, n - 1) + self.nodes[n - 1].text->Some_0
        } else {
            self.text_before(a, n - 1)
        }
    }

    /// The characters inside a node.
    pub open spec fn text(self, a: int) -> Seq<char> {
        self.text_before(a, self.nodes.len() as int)
    }
}

/// An attribute value, with nothing standing for the empty value.
pub open spec fn or_empty(value: Option<Seq<char>>) -> Seq<char> {
    match value {
        Some(v) => v,
        None => Seq::empty(),
    }
}

impl Tree {
    /// Finds the end of the part of the document that lies inside the node at `a`.
    fn end_of(&self, a: usize) -> (end: usize)
        ensures
            end <= self.nodes@.len(),
            forall|j: int| self@.is_descendant(a as int, j) <==> a < j < end,
    {
        if a >= self.nodes.len() {
            return 0;
        }
        let mut j: usize = a + 1;
        while j < self.nodes.len() && self.nodes[j].depth > self.nodes[a].depth
            invariant
                a < j <= self.nodes@.len(),
                forall|k: int| a < k < j ==> (#[trigger] self@.nodes[k]).depth
                    > self@.nodes[a as int].depth,
            decreases self.nodes@.len() - j,
        {
            assert(self@.nodes[j as int].depth == self.nodes@[j as int].depth);
            j += 1;
        }
        assert forall|i: int| self@.is_descendant(a as int, i) <==> a < i < j by {
            if j <= i < self.nodes@.len() {
                assert(self@.nodes[j as int].depth == self.nodes@[j as int].depth);
            }
        }
        j
    }

    /// Whether a node is an element of that name.
    fn named(&self, j: usize, ns: &str, local: &str) -> (r: bool)
        requires
            j < self.nodes@.len(),
        ensures
            r == self@.nodes[j as int].is_element(ns@, local@),
    {
        match &self.nodes[j].name {
            Some((Some(n), l)) => text::same(n.as_str(), ns) && text::same(l.as_str(), local),
            _ => false,
        }
    }

    /// The elements of one name inside a node, in document order.
    pub fn descendants(&self, a: usize, ns: &str, local: &str) -> (r: Vec<usize>)
        ensures
            places(r@) == self@.descendants(a as int, ns@, local@),
    {
        let end: usize = self.end_of(a);
        let ghost wanted = |j: int|
            self@.is_descendant(a as int, j) && self@.nodes[j].is_element(ns@, local@);
        let mut out: Vec<usize> = Vec::new();
        let mut j: usize = 0;
        while j < end
            invariant
                j <= end <= self.nodes@.len(),
                forall|k: int| self@.is_descendant(a as int, k) <==> a < k < end,
                wanted == (|k: int|
                    self@.is_descendant(a as int, k) && self@.nodes[k].is_element(ns@, local@)),
                places(out@) == matching(j as int, wanted),
            decreases end - j,
        {
            if a < j && self.named(j, ns, local) {
                out.push(j);
            }
            proof {
                lemma_places(out@);
            }
            j += 1;
            assert(places(out@) =~= matching(j as int, wanted));
        }
        proof {
            lemma_matching_stops(end as int, self@.nodes.len() as int, wanted);
        }
        out
    }

    /// The elements of one name directly inside a node, in document order.
    pub fn children(&self, a: usize, ns: &str, local: &str) -> (r: Vec<usize>)
        ensures
            places(r@) == self@.children(a as int, ns@, local@),
    {
        let end: usize = self.end_of(a);
        let ghost wanted = |j: int|
            self@.is_child(a as int, j) && self@.nodes[j].is_element(ns@, local@);
        let mut out: Vec<usize> = Vec::new();
        let mut j: usize = 0;
        while j < end
            invariant
                j <= end <= self.nodes@.len(),
                forall|k: int| self@.is_descendant(a as int, k) <==> a < k < end,
                wanted == (|k: int|
                    self@.is_child(a as int, k) && self@.nodes[k].is_element(ns@, local@)),
                places(out@) == matching(j as int, wanted),
            decreases end - j,
        {
            if a < j {
                assert(self@.nodes[j as int].depth == self.nodes@[j as int].depth);
                assert(self@.nodes[a as int].depth == self.nodes@[a as int].depth);
                assert(self@.nodes[j as int].depth > self@.nodes[a as int].depth) by {
                    assert(self@.is_descendant(a as int, j as int));
                }
                if self.nodes[j].depth - self.nodes[a].depth == 1 && self.named(j, ns, local) {
                    out.push(j);
                }
            }
            proof {
                lemma_places(out@);
            }
            j += 1;
            assert(places(out@) =~= matching(j as int, wanted));
        }
        proof {
            lemma_matching_stops(end as int, self@.nodes.len() as int, wanted);
        }
        out
    }

    /// The first element of one name directly inside a node.
    pub fn child(&self, a: usize, ns: &str, local: &str) -> (r: Option<usize>)
        ensures
            opt_place(r) == self@.child(a as int, ns@, local@),
    {
        let all = self.children(a, ns, local);
        proof {
            assert(places(all@).len() == all@.len());
        }
        if all.len() == 0 {
            None
        } else {
            assert(places(all@)[0] == all@[0] as int);
            Some(all[0])
        }
    }

    /// The first element of one name directly inside a node, where there is one.
    pub fn child_of(&self, a: Option<usize>, ns: &str, local: &str) -> (r: Option<usize>)
        ensures
            opt_place(r) == self@.child_of(opt_place(a), ns@, local@),
    {
        match a {
            Some(p) => self.child(p, ns, local),
            None => None,
        }
    }

    /// The value of an attribute of a node.
    pub fn attribute(&self, a: usize, name: &str) -> (r: Option<&str>)
        ensures
            match r {
                Some(v) => self@.attribute(a as int, name@) == Some(v@),
                None => self@.attribute(a as int, name@) is None,
            },
    {
        if a >= self.nodes.len() {
            return None;
        }
        let list = &self.nodes[a].attributes;
        let ghost all = attribute_list(list@);
        let mut i: usize = 0;
        assert(all.skip(0) =~= all);
        while i < list.len()
            invariant
                i <= list@.len(),
                a < self.nodes@.len(),
                all == attribute_list(list@),
                all == self@.nodes[a as int].attributes,
                find_attribute(all, name@) == find_attribute(all.skip(i as int), name@),
            decreases list@.len() - i,
        {
            assert(all.skip(i as int)[0] == (list@[i as int].0@, list@[i as int].1@));
            if text::same(list[i].0.as_str(), name) {
                return Some(list[i].1.as_str());
            }
            assert(all.skip(i as int).skip(1) =~= all.skip(i + 1));
            i += 1;
        }
        None
    }

    /// The value of an attribute of a node, or the empty text.
    pub fn attribute_or_empty(&self, a: Option<usize>, name: &str) -> (r: &str)
        ensures
            r@ == or_empty(self@.attribute_of(opt_place(a), name@)),
    {
        proof {
            reveal_strlit("");
            assert(""@ =~= Seq::<char>::empty());
        }
        match a {
            Some(p) => match self.attribute(p, name) {
                Some(v) => v,
                None => "",
            },
            None => "",
        }
    }

    /// The characters inside a node.
    pub fn text(&self, a: usize) -> (r: String)
        ensures
            r@ == self@.text(a as int),
    {
        let end: usize = self.end_of(a);
        let mut out = String::new();
        let mut j: usize = 0;
        while j < end
            invariant
                j <= end <= self.nodes@.len(),
                forall|k: int| self@.is_descendant(a as int, k) <==> a < k < end,
                out@ == self@.text_before(a as int, j as int),
            decreases end - j,
        {
            if a < j {
                assert(self@.nodes[j as int] == self.nodes@[j as int]@);
                if let Some(t) = &self.nodes[j].text {
                    out.append(t.as_str());
                }
            }
            j += 1;
        }
        proof {
            lemma_text_stops(self@, a as int, end as int, self@.nodes.len() as int);
        }
        out
    }

    /// Whether the node at `j` is the node at `a`, or lies inside it.
    pub fn is_within(&self, a: usize, j: usize) -> (r: bool)
        ensures
            r == self@.is_within(a as int, j as int),
    {
        let end: usize = self.end_of(a);
        a == j || (a < j && j < end)
    }
}

proof fn lemma_places(list: Seq<usize>)
    ensures
        list.len() > 0 ==> places(list) == places(list.drop_last()).push(list.last() as int),
{
    if list.len() > 0 {
        assert(places(list) =~= places(list.drop_last()).push(list.last() as int));
    }
}

/// Nothing is found from the place on where nothing is wanted any more.
proof fn lemma_matching_stops(end: int, n: int, wanted: spec_fn(int) -> bool)
    requires
        0 <= end <= n,
        forall|k: int| end <= k < n ==> !(#[trigger] wanted(k)),
    ensures
        matching(n, wanted) == matching(end, wanted),
    decreases n - end,
{
    if end < n {
        assert(!wanted(n - 1));
        lemma_matching_stops(end, n - 1, wanted);
    }
}

proof fn lemma_text_stops(tree: TreeView, a: int, end: int, n: int)
    requires
        0 <= end <= n,
        forall|k: int| tree.is_descendant(a, k) <==> a < k < end,
    ensures
        tree.text_before(a, n) == tree.text_before(a, end),
    decreases n - end,
{
    if end < n {
        assert(!tree.is_descendant(a, n - 1));
        lemma_text_stops(tree, a, end, n - 1);
    }
}

/// What is found are exactly the wanted places, in ascending order.
pub proof fn matching_is_exact(n: int, wanted: spec_fn(int) -> bool)
    ensures
        forall|j: int| matching(n, wanted).contains(j) <==> 0 <= j < n && wanted(j),
        forall|i: int, k: int|
            0 <= i < k < matching(n, wanted).len() ==> matching(n, wanted)[i] < matching(
                n,
                wanted,
            )[k],
    decreases n,
{
    if n > 0 {
        matching_is_exact(n - 1, wanted);
        let before = matching(n - 1, wanted);
        let all = matching(n, wanted);
        assert forall|j: int| all.contains(j) <==> 0 <= j < n && wanted(j) by {
            if wanted(n - 1) {
                if j == n - 1 {
                    assert(all[all.len() - 1] == j);
                } else if before.contains(j) {
                    let i = before.index_of(j);
                    assert(all[i] == j);
                } else if all.contains(j) {
                    let i = all.index_of(j);
                    assert(before[i] == j);
                }
            }
        }
        assert forall|i: int, k: int| 0 <= i < k < all.len() implies all[i] < all[k] by {
            if wanted(n - 1) && k == all.len() - 1 {
                assert(before.contains(before[i]));
            }
        }
    }
}

/// The elements of a name inside a node are exactly those behind it, up to the first node that is
/// no deeper, that have the name; in document order.
pub proof fn descendants_are_what_lies_inside(
    doc: TreeView,
    a: int,
    ns: Seq<char>,
    local: Seq<char>,
)
    requires
        0 <= a < doc.nodes.len(),
    ensures
        ({
            let found = doc.descendants(a, ns, local);
            &&& forall|i: int, k: int| 0 <= i < k < found.len() ==> found[i] < found[k]
            &&& forall|j: int| #[trigger]
                found.contains(j) <==> a < j < doc.nodes.len() && doc.nodes[j].name == Some(
                    (Some(ns), local),
                ) && (forall|k: int|
                    a < k <= j ==> (#[trigger] doc.nodes[k]).depth > doc.nodes[a].depth)
        }),
{
    let wanted = |j: int| doc.is_descendant(a, j) && doc.nodes[j].is_element(ns, local);
    matching_is_exact(doc.nodes.len() as int, wanted);
    let found = doc.descendants(a, ns, local);
    assert forall|j: int| #[trigger] found.contains(j) <==> a < j < doc.nodes.len()
        && doc.nodes[j].name == Some((Some(ns), local)) && (forall|k: int|
        a < k <= j ==> (#[trigger] doc.nodes[k]).depth > doc.nodes[a].depth) by {
        assert(wanted(j) <==> doc.is_descendant(a, j) && doc.nodes[j].is_element(ns, local));
    }
}

/// The elements of a name directly inside a node are those inside it that are one level deeper; and
/// the first of them is the child of that name.
pub proof fn children_are_one_level_deeper(
    doc: TreeView,
    a: int,
    ns: Seq<char>,
    local: Seq<char>,
)
    requires
        0 <= a < doc.nodes.len(),
    ensures
        ({
            let found = doc.children(a, ns, local);
            let inside = doc.descendants(a, ns, local);
            &&& forall|i: int, k: int| 0 <= i < k < found.len() ==> found[i] < found[k]
            &&& forall|j: int| #[trigger]
                found.contains(j) <==> inside.contains(j) && doc.nodes[j].depth
                    == doc.nodes[a].depth + 1
            &&& found.len() == 0 ==> doc.child(a, ns, local) is None
            &&& doc.child(a, ns, local) matches Some(j) ==> found.contains(j) && forall|k: int|
                found.contains(k) ==> j <= k
            &&& doc.child(a, ns, local) is None ==> found.len() == 0
        }),
{
    let wanted = |j: int| doc.is_child(a, j) && doc.nodes[j].is_element(ns, local);
    let around = |j: int| doc.is_descendant(a, j) && doc.nodes[j].is_element(ns, local);
    let n = doc.nodes.len() as int;
    matching_is_exact(n, wanted);
    matching_is_exact(n, around);
    let found = doc.children(a, ns, local);
    let inside = doc.descendants(a, ns, local);
    assert forall|j: int| #[trigger] found.contains(j) <==> inside.contains(j) && doc.nodes[j].depth
        == doc.nodes[a].depth + 1 by {
        assert(found.contains(j) <==> 0 <= j < n && wanted(j));
        assert(inside.contains(j) <==> 0 <= j < n && around(j));
    }
    if let Some(j) = doc.child(a, ns, local) {
        assert(found.contains(found[0]));
        assert forall|k: int| found.contains(k) implies j <= k by {
            let i = found.index_of(k);
            if i > 0 {
                assert(found[0] < found[i]);
            }
        }
    }
}

/// The value of an attribute is that of the first one with the name.
pub proof fn attribute_is_the_first_of_its_name(
    attributes: Seq<(Seq<char>, Seq<char>)>,
    name: Seq<char>,
    k: int,
)
    requires
        0 <= k <= attributes.len(),
        forall|i: int| 0 <= i < k ==> (#[trigger] attributes[i]).0 != name,
        k < attributes.len() ==> attributes[k].0 == name,
    ensures
        k < attributes.len() ==> find_attribute(attributes, name) == Some(attributes[k].1),
        k == attributes.len() ==> find_attribute(attributes, name) is None,
    decreases attributes.len(),
{
    if k > 0 {
        let rest = attributes.skip(1);
        assert(attributes[0].0 != name);
        assert forall|i: int| 0 <= i < k - 1 implies (#[trigger] rest[i]).0 != name by {
            assert(rest[i] == attributes[i + 1]);
        }
        attribute_is_the_first_of_its_name(rest, name, k - 1);
    }
}

/// The characters inside a node grow with the document: text behind the node, inside it, is added
/// at the end, and anything else changes nothing.
pub proof fn text_is_all_text_inside(doc: TreeView, a: int, node: NodeView)
    requires
        0 <= a < doc.nodes.len(),
    ensures
        ({
            let longer = (TreeView { source: doc.source, nodes: doc.nodes.push(node) });
            let inside = node.depth > doc.nodes[a].depth && forall|k: int|
                a < k < doc.nodes.len() ==> (#[trigger] doc.nodes[k]).depth > doc.nodes[a].depth;
            &&& inside && node.text is Some ==> longer.text(a) == doc.text(a) + node.text->Some_0
            &&& !inside || node.text is None ==> longer.text(a) == doc.text(a)
        }),
{
    let longer = (TreeView { source: doc.source, nodes: doc.nodes.push(node) });
    let n = doc.nodes.len() as int;
    lemma_same_text(doc, longer, a, n);
    assert(longer.nodes[n] == node);
    if longer.is_descendant(a, n) {
        assert(longer.nodes[n].depth > longer.nodes[a].depth);
        assert forall|k: int| a < k < n implies (#[trigger] doc.nodes[k]).depth
            > doc.nodes[a].depth by {
            assert(longer.nodes[k] == doc.nodes[k]);
        }
    }
}

proof fn lemma_same_text(doc: TreeView, longer: TreeView, a: int, n: int)
    requires
        0 <= a < doc.nodes.len() <= longer.nodes.len(),
        forall|k: int| 0 <= k < doc.nodes.len() ==> longer.nodes[k] == doc.nodes[k],
        n <= doc.nodes.len(),
    ensures
        longer.text_before(a, n) == doc.text_before(a, n),
    decreases n,
{
    if n > 0 {
        lemma_same_text(doc, longer, a, n - 1);
        if longer.is_descendant(a, n - 1) {
            assert forall|k: int| a < k <= n - 1 implies (#[trigger] doc.nodes[k]).depth
                > doc.nodes[a].depth by {
                assert(longer.nodes[k] == doc.nodes[k]);
            }
        }
    }
}

/// A node with nothing behind it holds no text.
pub proof fn last_node_holds_no_text(doc: TreeView, a: int)
    requires
        a == doc.nodes.len() - 1,
    ensures
        doc.text(a) == Seq::<char>::empty(),
{
    lemma_no_text_before(doc, a, doc.nodes.len() as int);
}

proof fn lemma_no_text_before(doc: TreeView, a: int, n: int)
    requires
        n <= a + 1,
    ensures
        doc.text_before(a, n) == Seq::<char>::empty(),
    decreases n,
{
    if n > 0 {
        lemma_no_text_before(doc, a, n - 1);
    }
}

/// A node counts in full: its number, its depth, its name, its attributes in order, and its text.
pub proof fn node_counts_in_full(node: Node)
    ensures
        node@.id == node.id,
        node@.depth == node.depth,
        node.name is None <==> node@.name is None,
        node.name matches Some(name) ==> {
            &&& (node@.name->Some_0).1 == name.1@
            &&& name.0 is None <==> (node@.name->Some_0).0 is None
            &&& name.0 matches Some(ns) ==> (node@.name->Some_0).0 == Some(ns@)
        },
        node@.attributes.len() == node.attributes@.len(),
        forall|i: int|
            0 <= i < node.attributes@.len() ==> #[trigger] node@.attributes[i] == (
                node.attributes@[i].0@,
                node.attributes@[i].1@,
            ),
        node.text is None <==> node@.text is None,
        node.text matches Some(text) ==> node@.text == Some(text@),
{
}

/// A document counts in full: its text and every node, in order.
pub proof fn document_counts_in_full(tree: Tree)
    ensures
        tree@.source == tree.source@,
        tree@.nodes.len() == tree.nodes@.len(),
        forall|i: int| 0 <= i < tree.nodes@.len() ==> #[trigger] tree@.nodes[i] == tree.nodes@[i]@,
{
}

/// A node is within another exactly if it is that node, or lies behind it with nothing in between
/// that is no deeper than the other.
pub proof fn within_is_itself_or_inside(doc: TreeView, a: int, j: int)
    ensures
        doc.is_within(a, j) <==> a == j || (0 <= a < j < doc.nodes.len() && forall|k: int|
            a < k <= j ==> (#[trigger] doc.nodes[k]).depth > doc.nodes[a].depth),
{
}

/// Where there is no node there is no child and no attribute; where there is one, it is asked.
pub proof fn nothing_has_nothing(doc: TreeView, a: int, ns: Seq<char>, local: Seq<char>)
    ensures
        doc.child_of(None, ns, local) is None,
        doc.attribute_of(None, local) is None,
        doc.child_of(Some(a), ns, local) == doc.child(a, ns, local),
        doc.attribute_of(Some(a), local) == doc.attribute(a, local),
        0 <= a < doc.nodes.len() ==> doc.attribute(a, local) == find_attribute(
            doc.nodes[a].attributes,
            local,
        ),
{
}

/// The questions asked of a document are answered by the places themselves, in order.
pub proof fn answers_are_places(
    tree: &Tree,
    a: usize,
    ns: &str,
    local: &str,
    inside: Vec<usize>,
    direct: Vec<usize>,
)
    requires
        call_ensures(Tree::descendants, (tree, a, ns, local), inside),
        call_ensures(Tree::children, (tree, a, ns, local), direct),
    ensures
        inside@.len() == tree@.descendants(a as int, ns@, local@).len(),
        forall|i: int|
            0 <= i < inside@.len() ==> #[trigger] inside@[i] == tree@.descendants(
                a as int,
                ns@,
                local@,
            )[i],
        direct@.len() == tree@.children(a as int, ns@, local@).len(),
        forall|i: int|
            0 <= i < direct@.len() ==> #[trigger] direct@[i] == tree@.children(
                a as int,
                ns@,
                local@,
            )[i],
{
    assert forall|i: int| 0 <= i < inside@.len() implies #[trigger] inside@[i]
        == tree@.descendants(a as int, ns@, local@)[i] by {
        assert(places(inside@)[i] == inside@[i] as int);
    }
    assert forall|i: int| 0 <= i < direct@.len() implies #[trigger] direct@[i] == tree@.children(
        a as int,
        ns@,
        local@,
    )[i] by {
        assert(places(direct@)[i] == direct@[i] as int);
    }
}

} // verus!
