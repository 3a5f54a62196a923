//! The tree of HTML nodes that the sanitizer works on.
//!
//! A fragment is a forest of nodes. An element carries its tag name, an
//! ordered attribute list and its children; text and comments are leaves.
//! The mathematical model of a node is [`SNode`], built from sequences of
//! characters.

use vstd::prelude::*;

verus! {

broadcast use vstd::seq::group_seq_axioms, vstd::std_specs::vec::group_vec_axioms;

/// Model of one attribute: a name and a value, as character sequences.
pub struct SAttr {
    pub name: Seq<char>,
    pub value: Seq<char>,
}

/// Model of one node of the tree.
pub enum SNode {
    Element { name: Seq<char>, attrs: Seq<SAttr>, children: Seq<SNode> },
    Text { text: Seq<char> },
    Comment { text: Seq<char> },
}

/// One attribute of an element: a name and a value.
#[derive(Debug, Clone, PartialEq, Eq)]
pub struct Attr {
    pub name: String,
    pub value: String,
}

/// One node of a parsed HTML fragment.
#[derive(Debug, PartialEq, Eq)]
pub enum Node {
    Element { name: String, attrs: Vec<Attr>, children: Vec<Node> },
    Text { text: String },
    Comment { text: String },
}

impl View for Attr {
    type V = SAttr;

    open spec fn view(&self) -> SAttr {
        SAttr { name: self.name@, value: self.value@ }
    }
}

/// The model of one node.
pub open spec fn node_view(n: Node) -> SNode
    decreases n,
{
    match n {
        Node::Element { name, attrs, children } => SNode::Element {
            name: name@,
            attrs: attrs_view(attrs@),
            children: nodes_view(children@),
        },
        Node::Text { text } => SNode::Text { text: text@ },
        Node::Comment { text } => SNode::Comment { text: text@ },
    }
}

/// The models of a sequence of attributes.
pub open spec fn attrs_view(attrs: Seq<Attr>) -> Seq<SAttr> {
    Seq::new(attrs.len(), |i: int| attrs[i]@)
}

/// The models of a sequence of nodes.
pub open spec fn nodes_view(nodes: Seq<Node>) -> Seq<SNode>
    decreases nodes,
{
    if nodes.len() == 0 {
        Seq::empty()
    } else {
        seq![node_view(nodes[0])] + nodes_view(nodes.drop_first())
    }
}

impl View for Node {
    type V = SNode;

    open spec fn view(&self) -> SNode {
        node_view(*self)
    }
}

/// `nodes_view` indexes pointwise.
pub proof fn lemma_nodes_view_index(nodes: Seq<Node>, i: int)
    requires
        0 <= i < nodes.len(),
    ensures
        nodes_view(nodes).len() == nodes.len(),
        nodes_view(nodes)[i] == node_view(nodes[i]),
    decreases nodes.len(),
{
    if i > 0 {
        lemma_nodes_view_index(nodes.drop_first(), i - 1);
    } else {
        lemma_nodes_view_len(nodes.drop_first());
    }
}

/// `nodes_view` keeps the length.
pub proof fn lemma_nodes_view_len(nodes: Seq<Node>)
    ensures
        nodes_view(nodes).len() == nodes.len(),
    decreases nodes.len(),
{
    if nodes.len() > 0 {
        lemma_nodes_view_len(nodes.drop_first());
    }
}

/// `attrs_view` is the pointwise model of the sequence.
pub broadcast proof fn lemma_attrs_view_char(attrs: Seq<Attr>)
    ensures
        (#[trigger] attrs_view(attrs)).len() == attrs.len(),
        forall|i: int| 0 <= i < attrs.len() ==> #[trigger] attrs_view(attrs)[i] == attrs[i]@,
{
    assert forall|i: int| 0 <= i < attrs.len() implies #[trigger] attrs_view(attrs)[i]
        == attrs[i]@ by {
        assert(attrs_view(attrs)[i] == attrs[i]@);
    }
}

/// `nodes_view` is the pointwise model of the sequence.
pub broadcast proof fn lemma_nodes_view_char(nodes: Seq<Node>)
    ensures
        (#[trigger] nodes_view(nodes)).len() == nodes.len(),
        forall|i: int| 0 <= i < nodes.len() ==> #[trigger] nodes_view(nodes)[i] == node_view(
            nodes[i],
        ),
{
    lemma_nodes_view_len(nodes);
    assert forall|i: int| 0 <= i < nodes.len() implies #[trigger] nodes_view(nodes)[i] == node_view(
        nodes[i],
    ) by {
        lemma_nodes_view_index(nodes, i);
    }
}

/// Height of a node model, used as a termination measure for tree walks.
pub open spec fn snode_height(n: SNode) -> nat
    decreases n,
{
    match n {
        SNode::Element { children, .. } => 1 + snodes_height(children),
        SNode::Text { .. } => 0,
        SNode::Comment { .. } => 0,
    }
}

/// Height of a forest: one more than the largest height of a member.
pub open spec fn snodes_height(ns: Seq<SNode>) -> nat
    decreases ns,
{
    if ns.len() == 0 {
        0
    } else {
        let h0 = snode_height(ns[0]) + 1;
        let hr = snodes_height(ns.drop_first());
        if h0 > hr {
            h0
        } else {
            hr
        }
    }
}

/// Every member of a forest sits strictly below the forest's height.
pub proof fn lemma_snodes_height_mem(ns: Seq<SNode>, i: int)
    requires
        0 <= i < ns.len(),
    ensures
        snode_height(ns[i]) < snodes_height(ns),
    decreases ns.len(),
{
    if i == 0 {
    } else {
        lemma_snodes_height_mem(ns.drop_first(), i - 1);
        assert(ns.drop_first()[i - 1] == ns[i]);
    }
}

} // verus!
