//! XML documents as lists of nodes.
use crate::text::same_text;
use vstd::prelude::*;

verus! {

/// A node of a document.
#[derive(Debug, PartialEq)]
pub struct XmlNode {
    /// The position of its parent in the list of nodes.
    pub parent: Option<usize>,
    /// The local name of an element; empty for any other node.
    pub name: String,
    /// The text that it holds: of an element, its first child where that is text.
    pub text: Option<String>,
}

/// The view of an [`XmlNode`].
#[verifier::ext_equal]
pub struct XmlView {
    pub parent: Option<usize>,
    pub name: Seq<char>,
    pub text: Option<Seq<char>>,
}

impl View for XmlNode {
    type V = XmlView;

    open spec fn view(&self) -> XmlView {
        XmlView {
            parent: self.parent,
            name: self.name@,
            text: match self.text {
                Some(t) => Some(t@),
                None => None,
            },
        }
    }
}

pub open spec fn nodes_view(nodes: Seq<XmlNode>) -> Seq<XmlView> {
    Seq::new(nodes.len(), |i: int| nodes[i]@)
}

/// The nodes that `roxmltree::Document::parse` finds in a text, in document
/// order, or what the error says.
pub uninterp spec fn xml_nodes(text: Seq<char>) -> Result<Seq<XmlView>, Seq<char>>;

/// `roxmltree::Document::parse` and the document's `descendants`, or the error
/// by its text: a function of the text.
#[verifier::external_body]
pub(crate) fn parse_xml(text: &str) -> (r: Result<Vec<XmlNode>, String>)
    ensures
        match r {
            Ok(nodes) => xml_nodes(text@) == Ok::<Seq<XmlView>, Seq<char>>(nodes_view(nodes@)),
            Err(e) => xml_nodes(text@) == Err::<Seq<XmlView>, Seq<char>>(e@),
        },
{
    let document = roxmltree::Document::parse(text).map_err(|e| e.to_string())?;
    let node = |n: roxmltree::Node<'_, '_>| XmlNode {
        parent: n.parent().map(|p| p.id().get_usize()),
        name: n.tag_name().name().to_string(),
        text: n.text().map(|t| t.to_string()),
    };
    Ok(document.descendants().map(node).collect())
}

/// The first node from `from` on with that name.
pub open spec fn named_from(nodes: Seq<XmlView>, name: Seq<char>, from: int) -> Option<int>
    decreases nodes.len() - from,
{
    if from < 0 || from >= nodes.len() {
        None
    } else if nodes[from].name == name {
        Some(from)
    } else {
        named_from(nodes, name, from + 1)
    }
}

/// The first node from `from` on with that name and parent.
pub open spec fn child_from(
    nodes: Seq<XmlView>,
    parent: int,
    name: Seq<char>,
    from: int,
) -> Option<int>
    decreases nodes.len() - from,
{
    if from < 0 || from >= nodes.len() {
        None
    } else if nodes[from].name == name && nodes[from].parent is Some && nodes[from].parent->0
        == parent {
        Some(from)
    } else {
        child_from(nodes, parent, name, from + 1)
    }
}

/// The first node in the document with that name.
pub open spec fn first_named(nodes: Seq<XmlView>, name: Seq<char>) -> Option<int> {
    named_from(nodes, name, 0)
}

/// The first child of a node with that name.
pub open spec fn first_child(nodes: Seq<XmlView>, parent: int, name: Seq<char>) -> Option<int> {
    child_from(nodes, parent, name, 0)
}

pub fn find_named(nodes: &Vec<XmlNode>, name: &str, from: usize) -> (r: Option<usize>)
    ensures
        match r {
            Some(i) => from <= i < nodes@.len() && named_from(
                nodes_view(nodes@),
                name@,
                from as int,
            ) == Some(i as int),
            None => named_from(nodes_view(nodes@), name@, from as int) is None,
        },
{
    let mut i: usize = from;
    while i < nodes.len()
        invariant
            from <= i,
            named_from(nodes_view(nodes@), name@, from as int) == named_from(
                nodes_view(nodes@),
                name@,
                i as int,
            ),
        decreases nodes@.len() - i,
    {
        assert(nodes_view(nodes@)[i as int] == nodes@[i as int]@);
        if same_text(nodes[i].name.as_str(), name) {
            return Some(i);
        }
        i = i + 1;
    }
    None
}

pub fn find_child(nodes: &Vec<XmlNode>, parent: usize, name: &str) -> (r: Option<usize>)
    ensures
        match r {
            Some(i) => i < nodes@.len() && first_child(nodes_view(nodes@), parent as int, name@)
                == Some(i as int),
            None => first_child(nodes_view(nodes@), parent as int, name@) is None,
        },
{
    let mut i: usize = 0;
    while i < nodes.len()
        invariant
            i <= nodes@.len(),
            first_child(nodes_view(nodes@), parent as int, name@) == child_from(
                nodes_view(nodes@),
                parent as int,
                name@,
                i as int,
            ),
        decreases nodes@.len() - i,
    {
        assert(nodes_view(nodes@)[i as int] == nodes@[i as int]@);
        let under: bool = match nodes[i].parent {
            Some(p) => p == parent,
            None => false,
        };
        if under && same_text(nodes[i].name.as_str(), name) {
            return Some(i);
        }
        i = i + 1;
    }
    None
}

proof fn lemma_named_from(nodes: Seq<XmlView>, name: Seq<char>, from: int)
    requires
        0 <= from,
    ensures
        named_from(nodes, name, from) is None ==> forall|i: int|
            #![trigger nodes[i]]
            from <= i < nodes.len() ==> nodes[i].name != name,
        named_from(nodes, name, from) is Some ==> from <= named_from(nodes, name, from)->0
            < nodes.len() && nodes[named_from(nodes, name, from)->0].name == name && forall|i: int|
            #![trigger nodes[i]]
            from <= i < named_from(nodes, name, from)->0 ==> nodes[i].name != name,
    decreases nodes.len() - from,
{
    if from < nodes.len() && nodes[from].name != name {
        lemma_named_from(nodes, name, from + 1);
    }
}

/// A node is found by its name: the first one from a place on that has it.
pub proof fn law_the_first_node_of_a_name_is_found(
    nodes: Seq<XmlView>,
    name: Seq<char>,
    from: int,
    i: int,
)
    requires
        0 <= from,
    ensures
        named_from(nodes, name, from) == Some(i) <==> from <= i < nodes.len() && nodes[i].name
            == name && forall|j: int|
            #![trigger nodes[j]]
            from <= j < i ==> nodes[j].name != name,
        named_from(nodes, name, from) is None <==> forall|j: int|
            #![trigger nodes[j]]
            from <= j < nodes.len() ==> nodes[j].name != name,
{
    lemma_named_from(nodes, name, from);
    if named_from(nodes, name, from) is Some {
        let at = named_from(nodes, name, from)->0;
        assert(nodes[at].name == name);
        if from <= i < nodes.len() && nodes[i].name == name {
            assert(i >= at);
        }
    }
}

/// A node is the child of another by that name.
pub open spec fn is_child(nodes: Seq<XmlView>, parent: int, name: Seq<char>, i: int) -> bool {
    nodes[i].name == name && nodes[i].parent is Some && nodes[i].parent->0 == parent
}

proof fn lemma_child_from(nodes: Seq<XmlView>, parent: int, name: Seq<char>, from: int)
    requires
        0 <= from,
    ensures
        child_from(nodes, parent, name, from) is None ==> forall|i: int|
            #![trigger nodes[i]]
            from <= i < nodes.len() ==> !is_child(nodes, parent, name, i),
        child_from(nodes, parent, name, from) is Some ==> from <= child_from(
            nodes,
            parent,
            name,
            from,
        )->0 < nodes.len() && is_child(
            nodes,
            parent,
            name,
            child_from(nodes, parent, name, from)->0,
        ) && forall|i: int|
            #![trigger nodes[i]]
            from <= i < child_from(nodes, parent, name, from)->0 ==> !is_child(
                nodes,
                parent,
                name,
                i,
            ),
    decreases nodes.len() - from,
{
    if from < nodes.len() && !is_child(nodes, parent, name, from) {
        lemma_child_from(nodes, parent, name, from + 1);
    }
}

/// A child is found by its name and its parent: the first one that has both.
pub proof fn law_the_first_child_of_a_name_is_found(
    nodes: Seq<XmlView>,
    parent: int,
    name: Seq<char>,
    i: int,
)
    ensures
        first_child(nodes, parent, name) == Some(i) <==> 0 <= i < nodes.len() && is_child(
            nodes,
            parent,
            name,
            i,
        ) && forall|j: int|
            #![trigger nodes[j]]
            0 <= j < i ==> !is_child(nodes, parent, name, j),
        first_child(nodes, parent, name) is None <==> forall|j: int|
            #![trigger nodes[j]]
            0 <= j < nodes.len() ==> !is_child(nodes, parent, name, j),
{
    lemma_child_from(nodes, parent, name, 0);
    if first_child(nodes, parent, name) is Some {
        let at = first_child(nodes, parent, name)->0;
        assert(nodes[at].name == name);
        if 0 <= i < nodes.len() && is_child(nodes, parent, name, i) {
            assert(nodes[i].name == name);
            assert(i >= at);
        }
    }
}

} // verus!
