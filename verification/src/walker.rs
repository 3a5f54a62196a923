//! The tree walker: one pass over a parsed forest that applies the policy
//! and the attribute filter hook.
//!
//! Per element: an allowed tag keeps the element, with its attributes
//! filtered and its children walked; a disallowed tag in
//! `clean_content_tags` is deleted with its whole subtree; any other
//! disallowed tag is unwrapped, its cleaned children taking its place.
//! Per attribute, in original order: name allowlist, URL scheme check,
//! literal-value check, class and style rewriting (a `style` attribute
//! whose declarations all fall away is dropped), then the hook; after
//! that, forced attributes are set, exempt from all the checks.
//!
//! The walk recurses over the tree, so its stack use grows with the
//! nesting depth of the input.

use vstd::prelude::*;

use crate::classes::filter_class_exec;
use crate::classes::filter_class_value;
use crate::css::filter_style_exec;
use crate::css::filter_style_value;
use crate::ext::url_kind;
use crate::ext::SUrlKind;
use crate::ext::UrlKind;
use crate::ext::url_kind_of;
use crate::filter::AttrFilter;
use crate::filter::SHook;
use crate::node::attrs_view;
use crate::node::node_view;
use crate::node::nodes_view;
use crate::node::Attr;
use crate::node::Node;
use crate::node::SAttr;
use crate::node::SNode;
use crate::node::snode_height;
use crate::node::snodes_height;
use crate::node::lemma_snodes_height_mem;
use crate::policy::Policy;
use crate::policy::SPolicy;
use crate::strutil::contains_string;
use crate::strutil::str_eq;
use vstd::pervasive::VecAdditionalExecFns;
use vstd::string::StringExecFns;

verus! {

broadcast use vstd::seq::group_seq_axioms, vstd::std_specs::vec::group_vec_axioms,
    crate::node::lemma_nodes_view_char, crate::node::lemma_attrs_view_char,
    vstd::string::group_string_axioms;

/// Whether this attribute of this tag carries a URL, so that the scheme
/// check applies to it.
pub open spec fn is_url_attr(tag: Seq<char>, attr: Seq<char>) -> bool {
    ||| (tag != "animate"@ && tag != "set"@ && (attr == "href"@ || attr == "xlink:href"@))
    ||| attr == "src"@
    ||| (tag == "form"@ && attr == "action"@)
    ||| (tag == "object"@ && attr == "data"@)
    ||| ((tag == "button"@ || tag == "input"@) && attr == "formaction"@)
    ||| (tag == "a"@ && attr == "ping"@)
    ||| (tag == "video"@ && attr == "poster"@)
}

/// Whether a URL-bearing attribute value passes the scheme check: a value
/// with an explicit scheme needs the scheme allowed, a relative reference
/// always passes, and text the URL parser rejects is dropped.
pub open spec fn url_ok(p: SPolicy, tag: Seq<char>, attr: Seq<char>, value: Seq<char>) -> bool {
    !is_url_attr(tag, attr) || match url_kind_of(value) {
        SUrlKind::Scheme(s) => p.url_schemes.contains(s),
        SUrlKind::Relative => true,
        SUrlKind::Invalid => false,
    }
}

/// Whether the value passes the literal-value allowlist, where one is
/// configured for this tag and attribute.
pub open spec fn value_ok(p: SPolicy, tag: Seq<char>, attr: Seq<char>, value: Seq<char>) -> bool {
    match p.values_for(tag, attr) {
        Some(vs) => vs.contains(value),
        None => true,
    }
}

/// The value after class and style rewriting: `class` values lose tokens
/// outside the tag's allowlist, `style` values lose disallowed or
/// malformed declarations; every other value stands unchanged.
pub open spec fn rewrite_value(p: SPolicy, tag: Seq<char>, attr: Seq<char>, value: Seq<char>) -> Seq<
    char,
> {
    if attr == "class"@ && p.classes_for(tag) is Some {
        filter_class_value(p.classes_for(tag)->Some_0, value)
    } else if attr == "style"@ && p.filter_style_properties is Some {
        filter_style_value(p.filter_style_properties->Some_0, value)
    } else {
        value
    }
}

/// Whether rewriting leaves nothing of a `style` value, so that the
/// attribute is dropped rather than kept empty.
pub open spec fn style_emptied(p: SPolicy, tag: Seq<char>, attr: Seq<char>, v2: Seq<char>) -> bool {
    attr == "style"@ && p.filter_style_properties is Some && v2.len() == 0
}

/// What one attribute of one element becomes: dropped by the name, URL or
/// value checks, dropped as a `style` attribute whose declarations all
/// fell away, or rewritten and handed to the hook, which keeps, changes
/// or drops it.
pub open spec fn filter_attr(p: SPolicy, hook: SHook, tag: Seq<char>, a: SAttr) -> Option<SAttr> {
    if !p.attr_name_allowed(tag, a.name) {
        None
    } else if !url_ok(p, tag, a.name, a.value) {
        None
    } else if !value_ok(p, tag, a.name, a.value) {
        None
    } else {
        let v2 = rewrite_value(p, tag, a.name, a.value);
        if style_emptied(p, tag, a.name, v2) {
            None
        } else {
            match hook(tag, a.name, v2) {
                Some(v) => Some(SAttr { name: a.name, value: v }),
                None => None,
            }
        }
    }
}

/// The surviving attributes of one element, in their original order.
pub open spec fn clean_attrs(p: SPolicy, hook: SHook, tag: Seq<char>, attrs: Seq<SAttr>) -> Seq<
    SAttr,
>
    decreases attrs.len(),
{
    if attrs.len() == 0 {
        Seq::empty()
    } else {
        (match filter_attr(p, hook, tag, attrs[0]) {
            Some(a) => seq![a],
            None => Seq::<SAttr>::empty(),
        }) + clean_attrs(p, hook, tag, attrs.drop_first())
    }
}

/// The first position of an attribute with this name, if any.
pub open spec fn find_attr(attrs: Seq<SAttr>, name: Seq<char>) -> Option<int>
    decreases attrs.len(),
{
    if attrs.len() == 0 {
        None
    } else if attrs[0].name == name {
        Some(0)
    } else {
        match find_attr(attrs.drop_first(), name) {
            Some(k) => Some(k + 1),
            None => None,
        }
    }
}

/// The attribute list with `name` set to `value`: overwritten in place
/// where present, appended where absent.
pub open spec fn upsert(attrs: Seq<SAttr>, name: Seq<char>, value: Seq<char>) -> Seq<SAttr> {
    match find_attr(attrs, name) {
        Some(i) => attrs.update(i, SAttr { name, value }),
        None => attrs.push(SAttr { name, value }),
    }
}

/// The attribute list after every forced entry for this tag has been set,
/// in entry order.
pub open spec fn apply_forced(
    attrs: Seq<SAttr>,
    forced: Seq<crate::policy::SForcedAttr>,
    tag: Seq<char>,
) -> Seq<SAttr>
    decreases forced.len(),
{
    if forced.len() == 0 {
        attrs
    } else {
        apply_forced(
            if forced[0].tag == tag {
                upsert(attrs, forced[0].attr, forced[0].value)
            } else {
                attrs
            },
            forced.drop_first(),
            tag,
        )
    }
}

/// The attribute list after the link `rel` value has been set, where one
/// is configured and the element is a link.
pub open spec fn apply_link_rel(p: SPolicy, tag: Seq<char>, attrs: Seq<SAttr>) -> Seq<SAttr> {
    if p.link_rel is Some && tag == "a"@ {
        upsert(attrs, "rel"@, p.link_rel->Some_0)
    } else {
        attrs
    }
}

/// Everything that happens to one element's attribute list: filtering in
/// order, then the forced attributes, then the link `rel` value.
pub open spec fn process_attrs(p: SPolicy, hook: SHook, tag: Seq<char>, attrs: Seq<SAttr>) -> Seq<
    SAttr,
> {
    apply_link_rel(p, tag, apply_forced(clean_attrs(p, hook, tag, attrs), p.set_tag_attribute_values, tag))
}

/// What one node becomes: itself (text, kept comments, allowed elements,
/// the latter with attributes processed and children walked), nothing
/// (stripped comments, deleted subtrees), or its cleaned children
/// (unwrapped elements).
pub open spec fn clean_node(p: SPolicy, hook: SHook, n: SNode) -> Seq<SNode>
    decreases n,
{
    match n {
        SNode::Text { text } => seq![SNode::Text { text }],
        SNode::Comment { text } => if p.strip_comments {
            Seq::empty()
        } else {
            seq![SNode::Comment { text }]
        },
        SNode::Element { name, attrs, children } => {
            if p.tag_allowed(name) {
                seq![
                    SNode::Element {
                        name,
                        attrs: process_attrs(p, hook, name, attrs),
                        children: clean_nodes(p, hook, children),
                    },
                ]
            } else if p.is_clean_content(name) {
                Seq::empty()
            } else {
                clean_nodes(p, hook, children)
            }
        },
    }
}

/// What a forest becomes: each node's result, spliced in order.
pub open spec fn clean_nodes(p: SPolicy, hook: SHook, ns: Seq<SNode>) -> Seq<SNode>
    decreases ns,
{
    if ns.len() == 0 {
        Seq::empty()
    } else {
        clean_node(p, hook, ns[0]) + clean_nodes(p, hook, ns.drop_first())
    }
}

/// Whether this attribute of this tag carries a URL.
fn is_url_attr_exec(tag: &String, attr: &String) -> (r: bool)
    ensures
        r == is_url_attr(tag@, attr@),
{
    let t = tag.as_str();
    let a = attr.as_str();
    let not_anim = !str_eq(t, "animate") && !str_eq(t, "set");
    (not_anim && (str_eq(a, "href") || str_eq(a, "xlink:href"))) || str_eq(a, "src") || (str_eq(
        t,
        "form",
    ) && str_eq(a, "action")) || (str_eq(t, "object") && str_eq(a, "data")) || ((str_eq(t, "button")
        || str_eq(t, "input")) && str_eq(a, "formaction")) || (str_eq(t, "a") && str_eq(a, "ping"))
        || (str_eq(t, "video") && str_eq(a, "poster"))
}

/// What one attribute of one element becomes.
fn filter_attr_exec<F: AttrFilter>(p: &Policy, f: &F, tag: &String, a: Attr) -> (r: Option<Attr>)
    ensures
        match r {
            Some(out) => filter_attr(p@, f.hook(), tag@, a@) == Some(out@),
            None => filter_attr(p@, f.hook(), tag@, a@) is None,
        },
{
    if !p.attr_name_allowed(tag, &a.name) {
        return None;
    }
    if is_url_attr_exec(tag, &a.name) {
        match url_kind(a.value.as_str()) {
            UrlKind::Scheme(s) => {
                if !contains_string(&p.url_schemes, &s) {
                    return None;
                }
            },
            UrlKind::Relative => {},
            UrlKind::Invalid => {
                return None;
            },
        }
    }
    match p.values_for(tag, &a.name) {
        Some(vs) => {
            if !contains_string(vs, &a.value) {
                return None;
            }
        },
        None => {},
    }
    proof {
        reveal_strlit("class");
        reveal_strlit("style");
        assert("class"@[0] == 'c');
        assert("style"@[0] == 's');
        assert("class"@ != "style"@);
    }
    let Attr { name: aname, value: avalue } = a;
    assert(a@ == SAttr { name: aname@, value: avalue@ });
    let mut v2 = avalue;
    if str_eq(aname.as_str(), "class") {
        match p.classes_for(tag) {
            Some(cs) => {
                let t = filter_class_exec(cs, v2.as_str());
                v2 = t;
            },
            None => {},
        }
    } else if str_eq(aname.as_str(), "style") {
        match &p.filter_style_properties {
            Some(ps) => {
                let t = filter_style_exec(ps, v2.as_str());
                v2 = t;
                if v2.as_str().is_empty() {
                    assert(style_emptied(p@, tag@, aname@, v2@));
                    return None;
                }
            },
            None => {},
        }
    }
    assert(v2@ == rewrite_value(p@, tag@, aname@, a@.value));
    assert(!style_emptied(p@, tag@, aname@, v2@));
    match f.filter(tag.as_str(), aname.as_str(), v2.as_str()) {
        Some(v3) => Some(Attr { name: aname, value: v3 }),
        None => None,
    }
}

/// The surviving attributes of one element, in their original order.
fn clean_attrs_exec<F: AttrFilter>(p: &Policy, f: &F, tag: &String, attrs: Vec<Attr>) -> (out: Vec<
    Attr,
>)
    ensures
        attrs_view(out@) == clean_attrs(p@, f.hook(), tag@, attrs_view(attrs@)),
{
    let ghost orig = attrs_view(attrs@);
    let mut out: Vec<Attr> = Vec::new();
    let mut i: usize = 0;
    let mut rest = attrs;
    // Consume from the front by index to keep original order.
    assert(orig.skip(0) =~= orig);
    let n = rest.len();
    let mut taken: usize = 0;
    while taken < n
        invariant
            taken <= n,
            n == orig.len(),
            rest@.len() == n - taken,
            attrs_view(rest@) =~= orig.skip(taken as int),
            clean_attrs(p@, f.hook(), tag@, orig) == attrs_view(out@) + clean_attrs(
                p@,
                f.hook(),
                tag@,
                orig.skip(taken as int),
            ),
        decreases n - taken,
    {
        let ghost restv = orig.skip(taken as int);
        assert(restv[0] == orig[taken as int]);
        assert(restv.drop_first() =~= orig.skip(taken + 1));
        let a = rest.remove(0);
        assert(a@ == restv[0]);
        assert(attrs_view(rest@) =~= orig.skip(taken + 1));
        let ghost old_out = attrs_view(out@);
        match filter_attr_exec(p, f, tag, a) {
            Some(b) => {
                out.push(b);
                assert(attrs_view(out@) =~= old_out + seq![b@]);
            },
            None => {},
        }
        assert(attrs_view(out@) + clean_attrs(p@, f.hook(), tag@, orig.skip(taken + 1))
            =~= old_out + clean_attrs(p@, f.hook(), tag@, restv));
        taken = taken + 1;
    }
    assert(orig.skip(n as int).len() == 0);
    assert(attrs_view(out@) =~= clean_attrs(p@, f.hook(), tag@, orig));
    out
}

/// Set one attribute to a value: overwritten in place where present,
/// appended where absent.
fn upsert_exec(attrs: &mut Vec<Attr>, name: &String, value: &String)
    ensures
        attrs_view(final (attrs)@) == upsert(attrs_view(old(attrs)@), name@, value@),
{
    let ghost entry = attrs@;
    assert(entry == old(attrs)@);
    let ghost orig = attrs_view(entry);
    let mut i: usize = 0;
    assert(orig.skip(0) =~= orig);
    while i < attrs.len()
        invariant
            i <= attrs.len(),
            attrs@ == entry,
            entry == old(attrs)@,
            orig == attrs_view(entry),
            orig.len() == attrs@.len(),
            find_attr(orig.skip(i as int), name@) matches Some(k) ==> find_attr(orig, name@)
                == Some(k + i as int),
            find_attr(orig.skip(i as int), name@) is None ==> find_attr(orig, name@) is None,
        decreases attrs.len() - i,
    {
        let ghost restv = orig.skip(i as int);
        assert(restv[0] == orig[i as int]);
        assert(restv.drop_first() =~= orig.skip(i + 1));
        assert(orig[i as int] == entry[i as int]@);
        assert(orig[i as int] == attrs@[i as int]@);
        if attrs[i].name.eq(name) {
            assert(find_attr(restv, name@) == Some(0int));
            assert(find_attr(orig, name@) == Some(i as int));
            let nn = name.clone();
            let vv = value.clone();
            attrs.set(i, Attr { name: nn, value: vv });
            assert(attrs_view(attrs@) =~= orig.update(i as int, SAttr { name: name@, value: value@ }));
            return ;
        }
        i = i + 1;
    }
    assert(orig.skip(i as int).len() == 0);
    assert(find_attr(orig, name@) is None);
    let nn = name.clone();
    let vv = value.clone();
    attrs.push(Attr { name: nn, value: vv });
    assert(attrs_view(attrs@) =~= orig.push(SAttr { name: name@, value: value@ }));
}

/// Apply every forced entry for this tag, in entry order, then the link
/// `rel` value.
fn force_attrs_exec(p: &Policy, tag: &String, attrs: Vec<Attr>) -> (out: Vec<Attr>)
    ensures
        attrs_view(out@) == apply_link_rel(
            p@,
            tag@,
            apply_forced(attrs_view(attrs@), p@.set_tag_attribute_values, tag@),
        ),
{
    let ghost orig = attrs_view(attrs@);
    let ghost forced = p@.set_tag_attribute_values;
    let mut out = attrs;
    let mut i: usize = 0;
    assert(forced.skip(0) =~= forced);
    while i < p.set_tag_attribute_values.len()
        invariant
            i <= p.set_tag_attribute_values.len(),
            forced == p@.set_tag_attribute_values,
            apply_forced(orig, forced, tag@) == apply_forced(
                attrs_view(out@),
                forced.skip(i as int),
                tag@,
            ),
        decreases p.set_tag_attribute_values.len() - i,
    {
        let ghost restf = forced.skip(i as int);
        assert(restf[0] == forced[i as int]);
        assert(restf.drop_first() =~= forced.skip(i + 1));
        assert(forced[i as int] == p.set_tag_attribute_values@[i as int]@);
        let entry = &p.set_tag_attribute_values[i];
        if entry.tag.eq(tag) {
            upsert_exec(&mut out, &entry.attr, &entry.value);
        }
        i = i + 1;
    }
    assert(forced.skip(i as int).len() == 0);
    assert(apply_forced(orig, forced, tag@) == attrs_view(out@));
    match &p.link_rel {
        Some(rv) => {
            if str_eq(tag.as_str(), "a") {
                let rel_name = String::from_str("rel");
                upsert_exec(&mut out, &rel_name, rv);
                assert(rel_name@ == "rel"@);
            }
        },
        None => {},
    }
    out
}

/// What one node becomes, appended to `out`.
fn clean_node_exec<F: AttrFilter>(p: &Policy, f: &F, n: Node, out: &mut Vec<Node>)
    ensures
        nodes_view(final (out)@) == nodes_view(old(out)@) + clean_node(p@, f.hook(), node_view(n)),
    decreases snode_height(node_view(n)), 1int,
{
    let ghost nv = node_view(n);
    match n {
        Node::Text { text } => {
            let ghost before = nodes_view(out@);
            out.push(Node::Text { text });
            assert(nodes_view(out@) =~= before + seq![nv]);
        },
        Node::Comment { text } => {
            if p.strip_comments {
                assert(nodes_view(out@) =~= nodes_view(out@) + clean_node(p@, f.hook(), nv));
            } else {
                let ghost before = nodes_view(out@);
                out.push(Node::Comment { text });
                assert(nodes_view(out@) =~= before + seq![nv]);
            }
        },
        Node::Element { name, attrs, children } => {
            let ghost attrs_v = attrs_view(attrs@);
            let ghost children_v = nodes_view(children@);
            assert(nv == SNode::Element { name: name@, attrs: attrs_v, children: children_v });
            if p.tag_allowed(&name) {
                let new_attrs = clean_attrs_exec(p, f, &name, attrs);
                let new_attrs = force_attrs_exec(p, &name, new_attrs);
                proof {
                    assert(snodes_height(children_v) < snode_height(nv));
                }
                let new_children = clean_nodes_exec(p, f, children);
                let ghost before = nodes_view(out@);
                out.push(Node::Element { name, attrs: new_attrs, children: new_children });
                assert(nodes_view(out@) =~= before + clean_node(p@, f.hook(), nv));
            } else if p.is_clean_content(&name) {
                assert(nodes_view(out@) =~= nodes_view(out@) + clean_node(p@, f.hook(), nv));
            } else {
                proof {
                    assert(snodes_height(children_v) < snode_height(nv));
                }
                let cleaned = clean_nodes_exec(p, f, children);
                let ghost before = nodes_view(out@);
                let mut cleaned = cleaned;
                let ghost cleaned_v = nodes_view(cleaned@);
                assert(cleaned_v == clean_node(p@, f.hook(), nv));
                let clen = cleaned.len();
                let mut j: usize = 0;
                while j < clen
                    invariant
                        j <= clen,
                        clen == cleaned@.len() + j,
                        cleaned_v.len() == clen,
                        nodes_view(cleaned@) =~= cleaned_v.skip(j as int),
                        nodes_view(out@) == before + cleaned_v.take(j as int),
                    decreases clen - j,
                {
                    let ghost before_rm = cleaned@;
                    let ghost out_pre = nodes_view(out@);
                    let c = cleaned.remove(0);
                    assert(nodes_view(before_rm)[0] == node_view(before_rm[0]));
                    assert(node_view(c) == cleaned_v[j as int]);
                    out.push(c);
                    j = j + 1;
                    assert(cleaned@ =~= before_rm.drop_first());
                    assert(nodes_view(cleaned@).len() == cleaned@.len());
                    assert forall|k: int| 0 <= k < cleaned@.len() implies nodes_view(cleaned@)[k]
                        == cleaned_v.skip(j as int)[k] by {
                        assert(cleaned@[k] == before_rm[k + 1]);
                        assert(nodes_view(cleaned@)[k] == node_view(cleaned@[k]));
                        assert(nodes_view(before_rm)[k + 1] == node_view(before_rm[k + 1]));
                        assert(nodes_view(before_rm)[k + 1] == cleaned_v.skip(j as int - 1)[k + 1]);
                    }
                    assert(nodes_view(cleaned@) =~= cleaned_v.skip(j as int));
                    assert forall|k: int| 0 <= k < out@.len() implies nodes_view(out@)[k] == (before
                        + cleaned_v.take(j as int))[k] by {
                        assert(nodes_view(out@)[k] == node_view(out@[k]));
                        if k < out@.len() - 1 {
                            assert(out_pre[k] == node_view(out@[k]));
                        } else {
                            assert(out@[k] == c);
                        }
                    }
                    assert(nodes_view(out@).len() == out@.len());
                    assert(nodes_view(out@) =~= before + cleaned_v.take(j as int));
                }
                assert(nodes_view(out@) =~= before + cleaned_v);
            }
        },
    }
}

/// What a forest becomes: each node's result, spliced in order.
pub fn clean_nodes_exec<F: AttrFilter>(p: &Policy, f: &F, ns: Vec<Node>) -> (out: Vec<Node>)
    ensures
        nodes_view(out@) == clean_nodes(p@, f.hook(), nodes_view(ns@)),
    decreases snodes_height(nodes_view(ns@)), 0int,
{
    let ghost orig = nodes_view(ns@);
    let mut out: Vec<Node> = Vec::new();
    let mut rest = ns;
    let n = rest.len();
    let mut taken: usize = 0;
    assert(orig.skip(0) =~= orig);
    proof {
        crate::node::lemma_nodes_view_len(rest@);
    }
    while taken < n
        invariant
            taken <= n,
            n == orig.len(),
            rest@.len() == n - taken,
            nodes_view(rest@) =~= orig.skip(taken as int),
            snodes_height(orig) == snodes_height(nodes_view(ns@)),
            clean_nodes(p@, f.hook(), orig) == nodes_view(out@) + clean_nodes(
                p@,
                f.hook(),
                orig.skip(taken as int),
            ),
        decreases n - taken,
    {
        let ghost restv = orig.skip(taken as int);
        assert(restv[0] == orig[taken as int]);
        assert(restv.drop_first() =~= orig.skip(taken + 1));
        let node = rest.remove(0);
        assert(node_view(node) == restv[0]);
        assert(nodes_view(rest@) =~= orig.skip(taken + 1));
        let ghost before = nodes_view(out@);
        proof {
            lemma_snodes_height_mem(orig, taken as int);
        }
        clean_node_exec(p, f, node, &mut out);
        assert(nodes_view(out@) + clean_nodes(p@, f.hook(), orig.skip(taken + 1)) =~= before
            + clean_nodes(p@, f.hook(), restv));
        taken = taken + 1;
    }
    assert(orig.skip(n as int).len() == 0);
    assert(nodes_view(out@) =~= clean_nodes(p@, f.hook(), orig));
    out
}

} // verus!
