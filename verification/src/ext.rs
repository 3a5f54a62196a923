//! The trusted boundary to the outside parsing, serialization and URL
//! crates.
//!
//! Everything here is believed, not proved: each item's contract states
//! only what the outside crate's source shows. Results that no short
//! statement can pin down are given names (`parse_of`, `serialize_of`,
//! `url_kind_of`, `is_html_of`): each is a pure function of its argument,
//! produced by a deterministic outside computation.

use vstd::prelude::*;

use crate::node::Attr;
use crate::node::Node;
use crate::node::SNode;
use markup5ever_rcdom::Node as DomNode;
use markup5ever_rcdom::NodeData;

verus! {

/// The forest of nodes that the HTML5 fragment parser builds from a
/// string, in a `div` context, restricted to elements, text and comments.
pub uninterp spec fn parse_of(s: Seq<char>) -> Seq<SNode>;

/// The HTML text that the external serializer writes for a forest of
/// nodes.
pub uninterp spec fn serialize_of(ns: Seq<SNode>) -> Seq<char>;

/// How the URL parser classifies a string: an absolute URL with this
/// scheme, a relative reference, or invalid URL text.
pub uninterp spec fn url_kind_of(s: Seq<char>) -> SUrlKind;

/// Whether the HTML5 tokenizer finds any markup-significant construct in
/// a string.
pub uninterp spec fn is_html_of(s: Seq<char>) -> bool;

/// Model of [`UrlKind`].
pub enum SUrlKind {
    Scheme(Seq<char>),
    Relative,
    Invalid,
}

/// What the URL parser says of an attribute value: it has an explicit
/// scheme, it is a relative reference, or it is not URL text at all.
#[derive(Debug, PartialEq, Eq)]
pub enum UrlKind {
    Scheme(String),
    Relative,
    Invalid,
}

impl View for UrlKind {
    type V = SUrlKind;

    open spec fn view(&self) -> SUrlKind {
        match self {
            UrlKind::Scheme(s) => SUrlKind::Scheme(s@),
            UrlKind::Relative => SUrlKind::Relative,
            UrlKind::Invalid => SUrlKind::Invalid,
        }
    }
}

#[verifier::external_type_specification]
#[verifier::external_body]
pub struct ExRcdomNode(DomNode);

#[verifier::external_type_specification]
#[verifier::external_body]
pub struct ExQualName(html5ever::QualName);

#[verifier::external_type_specification]
#[verifier::external_body]
pub struct ExAttribute(html5ever::Attribute);

/// Relies on `url::Url::parse`: `Ok` carries the parsed URL whose scheme
/// `Url::scheme` returns; `RelativeUrlWithoutBase` marks a reference with
/// no base to resolve against; any other error marks invalid URL text.
#[verifier::external_body]
pub(crate) fn url_kind(value: &str) -> (r: UrlKind)
    ensures
        r@ == url_kind_of(value@),
{
    match url::Url::parse(value) {
        Ok(u) => UrlKind::Scheme(u.scheme().to_string()),
        Err(url::ParseError::RelativeUrlWithoutBase) => UrlKind::Relative,
        Err(_) => UrlKind::Invalid,
    }
}

/// Determine whether a string contains HTML syntax.
///
/// Relies on `ammonia::is_html`: it runs the HTML5 tokenizer over the
/// whole input and reports whether any token other than character data
/// (or a parse error) was produced.
#[verifier::external_body]
pub fn is_html(html: &str) -> (r: bool)
    ensures
        r == is_html_of(html@),
{
    ammonia::is_html(html)
}

/// Relies on `markup5ever_rcdom::NodeData`: reads one parsed node into the
/// library's tree, dropping doctypes and processing instructions.
#[verifier::external_body]
fn rc_to_node(h: &markup5ever_rcdom::Handle) -> (r: Option<Node>) {
    match &h.data {
        NodeData::Element { name, attrs, .. } => Some(Node::Element {
            name: name.local.to_string(),
            attrs: attrs.borrow().iter().map(
                |a| Attr { name: a.name.local.to_string(), value: a.value.to_string() },
            ).collect(),
            children: h.children.borrow().iter().filter_map(rc_to_node).collect(),
        }),
        NodeData::Text { contents } => Some(Node::Text { text: contents.borrow().to_string() }),
        NodeData::Comment { contents } => Some(Node::Comment { text: contents.to_string() }),
        _ => None,
    }
}

/// Relies on html5ever's `parse_fragment`: it parses the string by the
/// HTML5 fragment parsing algorithm in a `div` context and hands back the
/// fragment's top-level nodes.
#[verifier::external_body]
pub(crate) fn parse_html_fragment(html: &str) -> (r: Vec<Node>)
    ensures
        crate::node::nodes_view(r@) == parse_of(html@),
{
    let opts = html5ever::ParseOpts::default();
    let parser = html5ever::parse_fragment(markup5ever_rcdom::RcDom::default(), opts, qual_elem("div"), vec![], false);
    let dom = html5ever::tendril::TendrilSink::one(parser, html5ever::tendril::StrTendril::from_slice(html));
    let root = dom.document.children.borrow()[0].clone();
    let out = root.children.borrow().iter().filter_map(rc_to_node).collect();
    out
}

/// Relies on `html5ever::QualName`: an HTML-namespace qualified element
/// name with no prefix.
#[verifier::external_body]
fn qual_elem(local: &str) -> html5ever::QualName {
    html5ever::QualName::new(
        None,
        html5ever::Namespace::from("http://www.w3.org/1999/xhtml"),
        html5ever::LocalName::from(local),
    )
}

/// Relies on `html5ever::Attribute`: an attribute in no namespace, as the
/// HTML parser itself builds them.
#[verifier::external_body]
fn attr_to_rc(a: &Attr) -> html5ever::Attribute {
    html5ever::Attribute {
        name: html5ever::QualName::new(
            None,
            html5ever::Namespace::from(""),
            html5ever::LocalName::from(a.name.as_str()),
        ),
        value: html5ever::tendril::StrTendril::from_slice(a.value.as_str()),
    }
}

/// Relies on `markup5ever_rcdom::Node::new`: an element node of the
/// serializer's tree, without children yet.
#[verifier::external_body]
fn elem_to_rc(name: &str, attrs: &Vec<Attr>) -> markup5ever_rcdom::Handle {
    markup5ever_rcdom::Node::new(NodeData::Element {
        name: qual_elem(name),
        attrs: std::cell::RefCell::new(attrs.iter().map(attr_to_rc).collect()),
        template_contents: std::cell::RefCell::new(None),
        mathml_annotation_xml_integration_point: false,
    })
}

/// Relies on `markup5ever_rcdom::Node::new`: writes one node of the
/// library's tree back into the serializer's tree shape.
#[verifier::external_body]
fn node_to_rc(n: &Node) -> markup5ever_rcdom::Handle {
    let tendril_of = |t: &String| html5ever::tendril::StrTendril::from_slice(t.as_str());
    match n {
        Node::Element { name, attrs, children } => {
            let h = elem_to_rc(name.as_str(), attrs);
            h.children.borrow_mut().extend(children.iter().map(node_to_rc));
            h
        },
        Node::Text { text } => markup5ever_rcdom::Node::new(NodeData::Text { contents: std::cell::RefCell::new(tendril_of(text)) }),
        Node::Comment { text } => markup5ever_rcdom::Node::new(NodeData::Comment { contents: tendril_of(text) }),
    }
}

/// Relies on `html5ever::serialize`: it writes the forest as HTML text,
/// escaping text and attribute values and omitting end tags of void
/// elements, as the HTML serialization algorithm says.
#[verifier::external_body]
pub(crate) fn serialize_nodes(ns: &Vec<Node>) -> (r: String)
    ensures
        r@ == serialize_of(crate::node::nodes_view(ns@)),
{
    let container = markup5ever_rcdom::Node::new(NodeData::Document);
    container.children.borrow_mut().extend(ns.iter().map(node_to_rc));
    let mut buf: Vec<u8> = Vec::new();
    let handle = markup5ever_rcdom::SerializableHandle::from(container);
    let _ = html5ever::serialize(&mut buf, &handle, html5ever::serialize::SerializeOpts::default());
    String::from_utf8_lossy(&buf).into_owned()
}

} // verus!
