use nh3::defaults::default_policy;
use nh3::walker::clean_nodes_exec;
use nh3::Attr;
use nh3::Node;
use nh3::NoFilter;

fn elem(name: &str, attrs: Vec<Attr>, children: Vec<Node>) -> Node {
    Node::Element {
        name: name.to_string(),
        attrs,
        children,
    }
}

fn text(t: &str) -> Node {
    Node::Text {
        text: t.to_string(),
    }
}

fn attr(name: &str, value: &str) -> Attr {
    Attr {
        name: name.to_string(),
        value: value.to_string(),
    }
}

#[test]
fn walker_keeps_allowed_elements() {
    let p = default_policy();
    let input = vec![elem("b", vec![], vec![text("hi")])];
    let out = clean_nodes_exec(&p, &NoFilter {}, input);
    assert_eq!(out, vec![elem("b", vec![], vec![text("hi")])]);
}

#[test]
fn walker_unwraps_disallowed_elements() {
    let p = default_policy();
    let input = vec![elem(
        "unknown",
        vec![attr("x", "1")],
        vec![text("a"), elem("i", vec![], vec![text("b")])],
    )];
    let out = clean_nodes_exec(&p, &NoFilter {}, input);
    assert_eq!(out, vec![text("a"), elem("i", vec![], vec![text("b")])]);
}

#[test]
fn walker_deletes_clean_content_subtrees() {
    let p = default_policy();
    let input = vec![
        text("x"),
        elem(
            "script",
            vec![],
            vec![elem("b", vec![], vec![text("never")])],
        ),
        text("y"),
    ];
    let out = clean_nodes_exec(&p, &NoFilter {}, input);
    assert_eq!(out, vec![text("x"), text("y")]);
}

#[test]
fn walker_filters_attributes_in_order() {
    let p = default_policy();
    let input = vec![elem(
        "img",
        vec![
            attr("onerror", "alert(1)"),
            attr("alt", "pic"),
            attr("src", "/a.png"),
        ],
        vec![],
    )];
    let out = clean_nodes_exec(&p, &NoFilter {}, input);
    assert_eq!(
        out,
        vec![elem(
            "img",
            vec![attr("alt", "pic"), attr("src", "/a.png")],
            vec![]
        )]
    );
}

#[test]
fn walker_forces_rel_on_links() {
    let p = default_policy();
    let input = vec![elem("a", vec![attr("href", "/x")], vec![text("t")])];
    let out = clean_nodes_exec(&p, &NoFilter {}, input);
    assert_eq!(
        out,
        vec![elem(
            "a",
            vec![attr("href", "/x"), attr("rel", "noopener noreferrer")],
            vec![text("t")]
        )]
    );
}

#[test]
fn walker_strips_comments_by_default() {
    let p = default_policy();
    let input = vec![Node::Comment {
        text: " c ".to_string(),
    }];
    let out = clean_nodes_exec(&p, &NoFilter {}, input);
    assert_eq!(out, vec![]);
}

#[test]
fn walker_is_idempotent_on_trees() {
    let p = default_policy();
    let input = vec![elem(
        "unknown",
        vec![],
        vec![
            elem("a", vec![attr("href", "ftp://f/"), attr("bad", "1")], vec![]),
            elem("script", vec![], vec![text("x")]),
        ],
    )];
    let once = clean_nodes_exec(&p, &NoFilter {}, input);
    let again: Vec<Node> = once.iter().map(clone_node).collect();
    let twice = clean_nodes_exec(&p, &NoFilter {}, again);
    assert_eq!(once, twice);
}

fn clone_node(n: &Node) -> Node {
    match n {
        Node::Element {
            name,
            attrs,
            children,
        } => Node::Element {
            name: name.clone(),
            attrs: attrs.clone(),
            children: children.iter().map(clone_node).collect(),
        },
        Node::Text { text } => Node::Text { text: text.clone() },
        Node::Comment { text } => Node::Comment { text: text.clone() },
    }
}
