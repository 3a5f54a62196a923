//! The laws of the sanitizer, proved over the walker's definitions: what
//! holds of every output tree, for every input and policy.

use vstd::prelude::*;

use crate::filter::SHook;
use crate::node::SAttr;
use crate::node::SNode;
use crate::policy::SPolicy;
use crate::walker::apply_forced;
use crate::walker::apply_link_rel;
use crate::walker::clean_attrs;
use crate::walker::clean_node;
use crate::walker::clean_nodes;
use crate::walker::filter_attr;
use crate::walker::find_attr;
use crate::walker::process_attrs;
use crate::walker::upsert;

verus! {

broadcast use vstd::seq::group_seq_axioms, vstd::string::group_string_axioms;

/// Whether every element of a forest, at every depth, satisfies `q` of
/// its tag name and attribute list.
pub open spec fn all_elems(ns: Seq<SNode>, q: spec_fn(Seq<char>, Seq<SAttr>) -> bool) -> bool
    decreases ns,
{
    if ns.len() == 0 {
        true
    } else {
        elem_ok(ns[0], q) && all_elems(ns.drop_first(), q)
    }
}

/// Whether a node and every element below it satisfies `q`.
pub open spec fn elem_ok(n: SNode, q: spec_fn(Seq<char>, Seq<SAttr>) -> bool) -> bool
    decreases n,
{
    match n {
        SNode::Element { name, attrs, children } => q(name, attrs) && all_elems(children, q),
        SNode::Text { .. } => true,
        SNode::Comment { .. } => true,
    }
}

/// `all_elems` distributes over concatenation.
pub proof fn lemma_all_elems_concat(a: Seq<SNode>, b: Seq<SNode>, q: spec_fn(Seq<char>, Seq<SAttr>) -> bool)
    ensures
        all_elems(a + b, q) == (all_elems(a, q) && all_elems(b, q)),
    decreases a.len(),
{
    if a.len() == 0 {
        assert(a + b =~= b);
    } else {
        assert((a + b)[0] == a[0]);
        assert((a + b).drop_first() =~= a.drop_first() + b);
        lemma_all_elems_concat(a.drop_first(), b, q);
    }
}

/// Every element the walker emits satisfies `q`, provided `q` holds of
/// every allowed tag with a processed attribute list.
pub proof fn lemma_clean_all_elems(
    p: SPolicy,
    hook: SHook,
    ns: Seq<SNode>,
    q: spec_fn(Seq<char>, Seq<SAttr>) -> bool,
)
    requires
        forall|name: Seq<char>, attrs: Seq<SAttr>|
            p.tag_allowed(name) ==> #[trigger] q(name, process_attrs(p, hook, name, attrs)),
    ensures
        all_elems(clean_nodes(p, hook, ns), q),
    decreases ns,
{
    if ns.len() == 0 {
    } else {
        lemma_clean_node_all_elems(p, hook, ns[0], q);
        lemma_clean_all_elems(p, hook, ns.drop_first(), q);
        lemma_all_elems_concat(
            clean_node(p, hook, ns[0]),
            clean_nodes(p, hook, ns.drop_first()),
            q,
        );
    }
}

/// Every element the walker emits for one node satisfies `q`, under the
/// same premise.
pub proof fn lemma_clean_node_all_elems(
    p: SPolicy,
    hook: SHook,
    n: SNode,
    q: spec_fn(Seq<char>, Seq<SAttr>) -> bool,
)
    requires
        forall|name: Seq<char>, attrs: Seq<SAttr>|
            p.tag_allowed(name) ==> #[trigger] q(name, process_attrs(p, hook, name, attrs)),
    ensures
        all_elems(clean_node(p, hook, n), q),
    decreases n,
{
    match n {
        SNode::Text { text } => {
            let out = clean_node(p, hook, n);
            assert(out == seq![SNode::Text { text }]);
            assert(elem_ok(out[0], q));
            assert(out.drop_first() =~= Seq::<SNode>::empty());
            assert(all_elems(out.drop_first(), q));
            assert(all_elems(out, q));
        },
        SNode::Comment { text } => {
            let out = clean_node(p, hook, n);
            if !p.strip_comments {
                assert(out == seq![SNode::Comment { text }]);
                assert(elem_ok(out[0], q));
                assert(out.drop_first() =~= Seq::<SNode>::empty());
                assert(all_elems(out.drop_first(), q));
                assert(all_elems(out, q));
            }
        },
        SNode::Element { name, attrs, children } => {
            if p.tag_allowed(name) {
                lemma_clean_all_elems(p, hook, children, q);
                let e = SNode::Element {
                    name,
                    attrs: process_attrs(p, hook, name, attrs),
                    children: clean_nodes(p, hook, children),
                };
                assert(q(name, process_attrs(p, hook, name, attrs)));
                assert(elem_ok(e, q));
                assert(clean_node(p, hook, n) == seq![e]);
                assert(seq![e].drop_first() =~= Seq::<SNode>::empty());
                assert(all_elems(seq![e].drop_first(), q));
                assert(all_elems(seq![e], q));
            } else if p.is_clean_content(name) {
            } else {
                lemma_clean_all_elems(p, hook, children, q);
            }
        },
    }
}

/// Whether `q` holds of the name of every attribute in the list.
pub open spec fn attr_names_ok(attrs: Seq<SAttr>, q: spec_fn(Seq<char>) -> bool) -> bool {
    forall|i: int| 0 <= i < attrs.len() ==> q((#[trigger] attrs[i]).name)
}

/// Every attribute the per-attribute pipeline keeps has a name the
/// allowlist admits: the hook can rewrite or drop a value, never a name.
pub proof fn lemma_clean_attrs_names(p: SPolicy, hook: SHook, tag: Seq<char>, attrs: Seq<SAttr>)
    ensures
        attr_names_ok(clean_attrs(p, hook, tag, attrs), |nm: Seq<char>| p.attr_name_allowed(tag, nm)),
    decreases attrs.len(),
{
    let q = (|nm: Seq<char>| p.attr_name_allowed(tag, nm));
    if attrs.len() == 0 {
    } else {
        lemma_clean_attrs_names(p, hook, tag, attrs.drop_first());
        let rest = clean_attrs(p, hook, tag, attrs.drop_first());
        match filter_attr(p, hook, tag, attrs[0]) {
            Some(a) => {
                assert(q(a.name));
                assert(clean_attrs(p, hook, tag, attrs) == seq![a] + rest);
                assert forall|i: int|
                    0 <= i < clean_attrs(p, hook, tag, attrs).len() implies q(
                    (#[trigger] clean_attrs(p, hook, tag, attrs)[i]).name,
                ) by {
                    if i > 0 {
                        assert((seq![a] + rest)[i] == rest[i - 1]);
                    }
                }
            },
            None => {
                assert(clean_attrs(p, hook, tag, attrs) =~= rest);
            },
        }
    }
}

/// `upsert` keeps a name property, given the new name has it.
pub proof fn lemma_upsert_names(
    attrs: Seq<SAttr>,
    name: Seq<char>,
    value: Seq<char>,
    q: spec_fn(Seq<char>) -> bool,
)
    requires
        attr_names_ok(attrs, q),
        q(name),
    ensures
        attr_names_ok(upsert(attrs, name, value), q),
{
    lemma_find_attr_bounds(attrs, name);
    let out = upsert(attrs, name, value);
    assert forall|i: int| 0 <= i < out.len() implies q((#[trigger] out[i]).name) by {
        match find_attr(attrs, name) {
            Some(k) => {
                if i != k {
                    assert(out[i] == attrs[i]);
                }
            },
            None => {
                if i < attrs.len() {
                    assert(out[i] == attrs[i]);
                }
            },
        }
    }
}

/// `find_attr` points inside the list, at the named attribute, and is
/// `None` exactly when no attribute bears the name.
pub proof fn lemma_find_attr_bounds(attrs: Seq<SAttr>, name: Seq<char>)
    ensures
        find_attr(attrs, name) matches Some(k) ==> 0 <= k < attrs.len() && attrs[k].name == name,
        find_attr(attrs, name) is None <==> forall|i: int|
            0 <= i < attrs.len() ==> (#[trigger] attrs[i]).name != name,
    decreases attrs.len(),
{
    if attrs.len() > 0 && attrs[0].name != name {
        lemma_find_attr_bounds(attrs.drop_first(), name);
        assert forall|i: int| 0 <= i < attrs.len() && (#[trigger] attrs[i]).name == name implies
            find_attr(attrs, name) is Some by {
            assert(attrs.drop_first()[i - 1] == attrs[i]);
        }
    }
}

/// Forcing keeps a name property, given every forced name for the tag
/// has it.
pub proof fn lemma_apply_forced_names(
    attrs: Seq<SAttr>,
    forced: Seq<crate::policy::SForcedAttr>,
    tag: Seq<char>,
    q: spec_fn(Seq<char>) -> bool,
)
    requires
        attr_names_ok(attrs, q),
        forall|j: int|
            0 <= j < forced.len() && (#[trigger] forced[j]).tag == tag ==> q(forced[j].attr),
    ensures
        attr_names_ok(apply_forced(attrs, forced, tag), q),
    decreases forced.len(),
{
    if forced.len() > 0 {
        let attrs2 = if forced[0].tag == tag {
            upsert(attrs, forced[0].attr, forced[0].value)
        } else {
            attrs
        };
        if forced[0].tag == tag {
            lemma_upsert_names(attrs, forced[0].attr, forced[0].value, q);
        }
        assert forall|j: int|
            0 <= j < forced.drop_first().len() && (#[trigger] forced.drop_first()[j]).tag
                == tag implies q(forced.drop_first()[j].attr) by {
            assert(forced.drop_first()[j] == forced[j + 1]);
        }
        lemma_apply_forced_names(attrs2, forced.drop_first(), tag, q);
    }
}

/// The name of an output attribute: admitted by the allowlist, or set by
/// a forced entry, or the forced link `rel`.
pub open spec fn name_allowed_or_forced(p: SPolicy, tag: Seq<char>, name: Seq<char>) -> bool {
    ||| p.attr_name_allowed(tag, name)
    ||| p.forced_contains(tag, name)
    ||| (p.link_rel is Some && tag == "a"@ && name == "rel"@)
}

/// The allowlist-closure property of one element.
pub open spec fn allowlist_q(p: SPolicy) -> spec_fn(Seq<char>, Seq<SAttr>) -> bool {
    |name: Seq<char>, attrs: Seq<SAttr>|
        p.tag_allowed(name) && attr_names_ok(
            attrs,
            |nm: Seq<char>| name_allowed_or_forced(p, name, nm),
        )
}

/// Allowlist closure: in everything the sanitizer emits, every element's
/// tag is allowed, and every attribute's name is admitted by the
/// tag-specific, generic or prefix allowlist, or was set by the policy
/// itself (a forced attribute or the link `rel`). This holds for every
/// policy, every hook and every input forest.
pub proof fn lemma_allowlist_closure(p: SPolicy, hook: SHook, ns: Seq<SNode>)
    ensures
        all_elems(clean_nodes(p, hook, ns), allowlist_q(p)),
{
    let q = allowlist_q(p);
    assert forall|name: Seq<char>, attrs: Seq<SAttr>| p.tag_allowed(name) implies #[trigger] q(
        name,
        process_attrs(p, hook, name, attrs),
    ) by {
        let nq = (|nm: Seq<char>| name_allowed_or_forced(p, name, nm));
        lemma_clean_attrs_names(p, hook, name, attrs);
        let cleaned = clean_attrs(p, hook, name, attrs);
        assert forall|i: int| 0 <= i < cleaned.len() implies nq((#[trigger] cleaned[i]).name) by {
            assert(p.attr_name_allowed(name, cleaned[i].name));
        }
        assert forall|j: int|
            0 <= j < p.set_tag_attribute_values.len() && (#[trigger] p.set_tag_attribute_values[j]).tag
                == name implies nq(p.set_tag_attribute_values[j].attr) by {
            assert(p.forced_contains(name, p.set_tag_attribute_values[j].attr));
        }
        lemma_apply_forced_names(cleaned, p.set_tag_attribute_values, name, nq);
        let forced = apply_forced(cleaned, p.set_tag_attribute_values, name);
        if p.link_rel is Some && name == "a"@ {
            assert(nq("rel"@));
            lemma_upsert_names(forced, "rel"@, p.link_rel->Some_0, nq);
        }
        assert(attr_names_ok(process_attrs(p, hook, name, attrs), nq));
    }
    lemma_clean_all_elems(p, hook, ns, q);
}

/// The value of the first attribute with this name, if any.
pub open spec fn attr_value_of(attrs: Seq<SAttr>, name: Seq<char>) -> Option<Seq<char>> {
    match find_attr(attrs, name) {
        Some(i) => Some(attrs[i].value),
        None => None,
    }
}

/// `find_attr` finds the first attribute with the name: everything before
/// it bears another name.
pub proof fn lemma_find_attr_first(attrs: Seq<SAttr>, name: Seq<char>)
    ensures
        find_attr(attrs, name) matches Some(k) ==> 0 <= k < attrs.len() && attrs[k].name == name
            && forall|i: int| 0 <= i < k ==> (#[trigger] attrs[i]).name != name,
    decreases attrs.len(),
{
    if attrs.len() > 0 && attrs[0].name != name {
        lemma_find_attr_first(attrs.drop_first(), name);
        match find_attr(attrs.drop_first(), name) {
            Some(k0) => {
                assert forall|i: int| 0 <= i < k0 + 1 implies (#[trigger] attrs[i]).name
                    != name by {
                    if i > 0 {
                        assert(attrs.drop_first()[i - 1] == attrs[i]);
                    }
                }
            },
            None => {},
        }
    }
}

/// Where the first attribute with the name stands at `k`, `find_attr`
/// says so.
pub proof fn lemma_find_attr_at(attrs: Seq<SAttr>, name: Seq<char>, k: int)
    requires
        0 <= k < attrs.len(),
        attrs[k].name == name,
        forall|i: int| 0 <= i < k ==> (#[trigger] attrs[i]).name != name,
    ensures
        find_attr(attrs, name) == Some(k),
    decreases attrs.len(),
{
    if k > 0 {
        assert forall|i: int| 0 <= i < k - 1 implies (#[trigger] attrs.drop_first()[i]).name
            != name by {
            assert(attrs.drop_first()[i] == attrs[i + 1]);
        }
        assert(attrs.drop_first()[k - 1] == attrs[k]);
        lemma_find_attr_at(attrs.drop_first(), name, k - 1);
    }
}

/// Setting an attribute makes its value the set one.
pub proof fn lemma_upsert_sets(attrs: Seq<SAttr>, name: Seq<char>, value: Seq<char>)
    ensures
        attr_value_of(upsert(attrs, name, value), name) == Some(value),
{
    lemma_find_attr_first(attrs, name);
    lemma_find_attr_bounds(attrs, name);
    let out = upsert(attrs, name, value);
    match find_attr(attrs, name) {
        Some(k) => {
            assert forall|i: int| 0 <= i < k implies (#[trigger] out[i]).name != name by {
                assert(out[i] == attrs[i]);
            }
            lemma_find_attr_at(out, name, k);
        },
        None => {
            assert forall|i: int| 0 <= i < attrs.len() implies (#[trigger] out[i]).name != name by {
                assert(out[i] == attrs[i]);
            }
            lemma_find_attr_at(out, name, attrs.len() as int);
        },
    }
}

/// Setting one attribute leaves every other name's value alone.
pub proof fn lemma_upsert_preserves(
    attrs: Seq<SAttr>,
    name: Seq<char>,
    value: Seq<char>,
    other: Seq<char>,
)
    requires
        other != name,
    ensures
        attr_value_of(upsert(attrs, name, value), other) == attr_value_of(attrs, other),
{
    lemma_find_attr_first(attrs, name);
    lemma_find_attr_bounds(attrs, name);
    lemma_find_attr_first(attrs, other);
    lemma_find_attr_bounds(attrs, other);
    let out = upsert(attrs, name, value);
    match find_attr(attrs, name) {
        Some(k) => {
            assert(forall|i: int|
                0 <= i < out.len() ==> (#[trigger] out[i]).name == attrs[i].name);
            match find_attr(attrs, other) {
                Some(j) => {
                    assert(j != k);
                    assert forall|i: int| 0 <= i < j implies (#[trigger] out[i]).name != other by {
                        assert(out[i].name == attrs[i].name);
                    }
                    lemma_find_attr_at(out, other, j);
                    assert(out[j] == attrs[j]);
                },
                None => {
                    lemma_find_attr_bounds(out, other);
                    assert forall|i: int| 0 <= i < out.len() implies (#[trigger] out[i]).name
                        != other by {
                        assert(out[i].name == attrs[i].name);
                    }
                },
            }
        },
        None => {
            match find_attr(attrs, other) {
                Some(j) => {
                    assert forall|i: int| 0 <= i < j implies (#[trigger] out[i]).name != other by {
                        assert(out[i] == attrs[i]);
                    }
                    assert(out[j] == attrs[j]);
                    lemma_find_attr_at(out, other, j);
                },
                None => {
                    lemma_find_attr_bounds(out, other);
                    assert forall|i: int| 0 <= i < out.len() implies (#[trigger] out[i]).name
                        != other by {
                        if i < attrs.len() {
                            assert(out[i] == attrs[i]);
                        }
                    }
                },
            }
        },
    }
}

/// Forcing leaves alone the value of every name no forced entry for the
/// tag bears.
pub proof fn lemma_apply_forced_preserves(
    attrs: Seq<SAttr>,
    forced: Seq<crate::policy::SForcedAttr>,
    tag: Seq<char>,
    name: Seq<char>,
)
    requires
        forall|j: int|
            0 <= j < forced.len() && (#[trigger] forced[j]).tag == tag ==> forced[j].attr != name,
    ensures
        attr_value_of(apply_forced(attrs, forced, tag), name) == attr_value_of(attrs, name),
    decreases forced.len(),
{
    if forced.len() > 0 {
        let attrs2 = if forced[0].tag == tag {
            upsert(attrs, forced[0].attr, forced[0].value)
        } else {
            attrs
        };
        if forced[0].tag == tag {
            lemma_upsert_preserves(attrs, forced[0].attr, forced[0].value, name);
        }
        assert forall|j: int|
            0 <= j < forced.drop_first().len() && (#[trigger] forced.drop_first()[j]).tag
                == tag implies forced.drop_first()[j].attr != name by {
            assert(forced.drop_first()[j] == forced[j + 1]);
        }
        lemma_apply_forced_preserves(attrs2, forced.drop_first(), tag, name);
    }
}

/// No two forced entries for one tag set the same attribute.
pub open spec fn forced_distinct(p: SPolicy) -> bool {
    forall|i: int, j: int|
        0 <= i < j < p.set_tag_attribute_values.len()
            && (#[trigger] p.set_tag_attribute_values[i]).tag
            == (#[trigger] p.set_tag_attribute_values[j]).tag
            ==> p.set_tag_attribute_values[i].attr != p.set_tag_attribute_values[j].attr
}

/// After forcing, every forced entry for the tag reads back exactly its
/// configured value.
pub proof fn lemma_apply_forced_values(
    attrs: Seq<SAttr>,
    forced: Seq<crate::policy::SForcedAttr>,
    tag: Seq<char>,
)
    requires
        forall|i: int, j: int|
            0 <= i < j < forced.len() && (#[trigger] forced[i]).tag == (#[trigger] forced[j]).tag
                ==> forced[i].attr != forced[j].attr,
    ensures
        forall|j: int|
            0 <= j < forced.len() && (#[trigger] forced[j]).tag == tag ==> attr_value_of(
                apply_forced(attrs, forced, tag),
                forced[j].attr,
            ) == Some(forced[j].value),
    decreases forced.len(),
{
    if forced.len() > 0 {
        let attrs2 = if forced[0].tag == tag {
            upsert(attrs, forced[0].attr, forced[0].value)
        } else {
            attrs
        };
        let rest = forced.drop_first();
        assert(forall|j: int| 0 <= j < rest.len() ==> #[trigger] rest[j] == forced[j + 1]);
        lemma_apply_forced_values(attrs2, rest, tag);
        assert forall|j: int|
            0 <= j < forced.len() && (#[trigger] forced[j]).tag == tag implies attr_value_of(
            apply_forced(attrs, forced, tag),
            forced[j].attr,
        ) == Some(forced[j].value) by {
            if j == 0 {
                lemma_upsert_sets(attrs, forced[0].attr, forced[0].value);
                assert forall|k: int|
                    0 <= k < rest.len() && (#[trigger] rest[k]).tag == tag implies rest[k].attr
                    != forced[0].attr by {
                    assert(rest[k] == forced[k + 1]);
                }
                lemma_apply_forced_preserves(attrs2, rest, tag, forced[0].attr);
            } else {
                assert(rest[j - 1] == forced[j]);
            }
        }
    }
}

/// The forced-attributes property of one element: every forced entry for
/// its tag, and the link `rel` on `a`, is present with exactly the
/// configured value.
pub open spec fn forced_values_q(p: SPolicy) -> spec_fn(Seq<char>, Seq<SAttr>) -> bool {
    |name: Seq<char>, attrs: Seq<SAttr>|
        {
            &&& forall|j: int|
                0 <= j < p.set_tag_attribute_values.len()
                    && (#[trigger] p.set_tag_attribute_values[j]).tag == name ==> attr_value_of(
                    attrs,
                    p.set_tag_attribute_values[j].attr,
                ) == Some(p.set_tag_attribute_values[j].value)
            &&& (p.link_rel is Some && name == "a"@ ==> attr_value_of(attrs, "rel"@) == Some(
                p.link_rel->Some_0,
            ))
        }
}

/// Forced attributes: in everything the sanitizer emits, every element
/// whose tag has forced entries carries each forced attribute with
/// exactly the configured value, whatever the input held; `a` elements
/// carry the configured link `rel`. This needs the forced entries of one
/// tag to set distinct attributes, and the `rel` configuration to be
/// conflict-free.
pub proof fn lemma_forced_attributes(p: SPolicy, hook: SHook, ns: Seq<SNode>)
    requires
        forced_distinct(p),
        p.rel_ok(),
    ensures
        all_elems(clean_nodes(p, hook, ns), forced_values_q(p)),
{
    let q = forced_values_q(p);
    assert forall|name: Seq<char>, attrs: Seq<SAttr>| p.tag_allowed(name) implies #[trigger] q(
        name,
        process_attrs(p, hook, name, attrs),
    ) by {
        let cleaned = clean_attrs(p, hook, name, attrs);
        let forced = apply_forced(cleaned, p.set_tag_attribute_values, name);
        let out = process_attrs(p, hook, name, attrs);
        lemma_apply_forced_values(cleaned, p.set_tag_attribute_values, name);
        if p.link_rel is Some && name == "a"@ {
            assert(out == upsert(forced, "rel"@, p.link_rel->Some_0));
            lemma_upsert_sets(forced, "rel"@, p.link_rel->Some_0);
            assert forall|j: int|
                0 <= j < p.set_tag_attribute_values.len()
                    && (#[trigger] p.set_tag_attribute_values[j]).tag == name implies attr_value_of(
                out,
                p.set_tag_attribute_values[j].attr,
            ) == Some(p.set_tag_attribute_values[j].value) by {
                assert(!p.forced_contains("a"@, "rel"@));
                assert(p.set_tag_attribute_values[j].attr != "rel"@);
                lemma_upsert_preserves(
                    forced,
                    "rel"@,
                    p.link_rel->Some_0,
                    p.set_tag_attribute_values[j].attr,
                );
            }
        } else {
            assert(out == forced);
        }
    }
    lemma_clean_all_elems(p, hook, ns, q);
}

/// Whether the per-attribute pipeline is stable: whatever it keeps, it
/// keeps unchanged when run again. With no hook this holds whenever
/// rewritten values pass the same checks; a hook must not rewrite a value
/// into one the checks or the hook itself would then reject.
pub open spec fn pipeline_stable(p: SPolicy, hook: SHook) -> bool {
    forall|tag: Seq<char>, a: SAttr|
        p.tag_allowed(tag) && (#[trigger] filter_attr(p, hook, tag, a)) is Some ==> filter_attr(
            p,
            hook,
            tag,
            filter_attr(p, hook, tag, a)->Some_0,
        ) == filter_attr(p, hook, tag, a)
}

/// Whether no forced attribute name is one the allowlist admits; the
/// forced link `rel` included. Forcing an admitted name can move the
/// attribute to the end of the list on a second pass.
pub open spec fn forced_not_admitted(p: SPolicy) -> bool {
    &&& forall|j: int|
        0 <= j < p.set_tag_attribute_values.len() ==> !p.attr_name_allowed(
            (#[trigger] p.set_tag_attribute_values[j]).tag,
            p.set_tag_attribute_values[j].attr,
        )
    &&& (p.link_rel is Some ==> !p.attr_name_allowed("a"@, "rel"@))
}

/// The per-attribute pipeline distributes over concatenation.
pub proof fn lemma_clean_attrs_concat(
    p: SPolicy,
    hook: SHook,
    tag: Seq<char>,
    a: Seq<SAttr>,
    b: Seq<SAttr>,
)
    ensures
        clean_attrs(p, hook, tag, a + b) == clean_attrs(p, hook, tag, a) + clean_attrs(
            p,
            hook,
            tag,
            b,
        ),
    decreases a.len(),
{
    if a.len() == 0 {
        assert(a + b =~= b);
        assert(clean_attrs(p, hook, tag, a) + clean_attrs(p, hook, tag, b) =~= clean_attrs(
            p,
            hook,
            tag,
            b,
        ));
    } else {
        assert((a + b)[0] == a[0]);
        assert((a + b).drop_first() =~= a.drop_first() + b);
        lemma_clean_attrs_concat(p, hook, tag, a.drop_first(), b);
        match filter_attr(p, hook, tag, a[0]) {
            Some(x) => {
                assert(clean_attrs(p, hook, tag, a + b) =~= clean_attrs(p, hook, tag, a)
                    + clean_attrs(p, hook, tag, b));
            },
            None => {
                assert(clean_attrs(p, hook, tag, a + b) =~= clean_attrs(p, hook, tag, a)
                    + clean_attrs(p, hook, tag, b));
            },
        }
    }
}

/// Under a stable pipeline, filtering what filtering kept changes
/// nothing.
pub proof fn lemma_clean_attrs_idem(p: SPolicy, hook: SHook, tag: Seq<char>, attrs: Seq<SAttr>)
    requires
        pipeline_stable(p, hook),
        p.tag_allowed(tag),
    ensures
        clean_attrs(p, hook, tag, clean_attrs(p, hook, tag, attrs)) == clean_attrs(
            p,
            hook,
            tag,
            attrs,
        ),
    decreases attrs.len(),
{
    if attrs.len() == 0 {
        assert(clean_attrs(p, hook, tag, attrs).len() == 0);
    } else {
        lemma_clean_attrs_idem(p, hook, tag, attrs.drop_first());
        let rest = clean_attrs(p, hook, tag, attrs.drop_first());
        match filter_attr(p, hook, tag, attrs[0]) {
            Some(b) => {
                assert(filter_attr(p, hook, tag, b) == Some(b));
                assert(clean_attrs(p, hook, tag, attrs) == seq![b] + rest);
                lemma_clean_attrs_concat(p, hook, tag, seq![b], rest);
                assert(seq![b].drop_first() =~= Seq::<SAttr>::empty());
                assert(seq![b][0] == b);
                assert(clean_attrs(p, hook, tag, seq![b].drop_first()) =~= Seq::<SAttr>::empty());
                assert(clean_attrs(p, hook, tag, seq![b]) =~= seq![b]);
            },
            None => {
                assert(clean_attrs(p, hook, tag, attrs) =~= rest);
            },
        }
    }
}

/// A list of attributes whose names the allowlist refuses filters to
/// nothing.
pub proof fn lemma_clean_attrs_unallowed(p: SPolicy, hook: SHook, tag: Seq<char>, attrs: Seq<SAttr>)
    requires
        forall|i: int|
            0 <= i < attrs.len() ==> !p.attr_name_allowed(tag, (#[trigger] attrs[i]).name),
    ensures
        clean_attrs(p, hook, tag, attrs) == Seq::<SAttr>::empty(),
    decreases attrs.len(),
{
    if attrs.len() > 0 {
        assert(forall|i: int|
            0 <= i < attrs.drop_first().len() ==> (#[trigger] attrs.drop_first()[i])
                == attrs[i + 1]);
        lemma_clean_attrs_unallowed(p, hook, tag, attrs.drop_first());
        assert(filter_attr(p, hook, tag, attrs[0]) is None);
        assert(clean_attrs(p, hook, tag, attrs) =~= Seq::<SAttr>::empty());
    }
}

/// The attributes that forcing appends to a list that held none of their
/// names: each matching entry, in order.
pub open spec fn forced_sattrs(forced: Seq<crate::policy::SForcedAttr>, tag: Seq<char>) -> Seq<
    SAttr,
>
    decreases forced.len(),
{
    if forced.len() == 0 {
        Seq::empty()
    } else {
        (if forced[0].tag == tag {
            seq![SAttr { name: forced[0].attr, value: forced[0].value }]
        } else {
            Seq::<SAttr>::empty()
        }) + forced_sattrs(forced.drop_first(), tag)
    }
}

/// On a list that holds none of the forced names, forcing appends the
/// matching entries in order.
pub proof fn lemma_apply_forced_appends(
    attrs: Seq<SAttr>,
    forced: Seq<crate::policy::SForcedAttr>,
    tag: Seq<char>,
)
    requires
        forall|j: int|
            0 <= j < forced.len() && (#[trigger] forced[j]).tag == tag ==> find_attr(
                attrs,
                forced[j].attr,
            ) is None,
        forall|i: int, j: int|
            0 <= i < j < forced.len() && (#[trigger] forced[i]).tag == (#[trigger] forced[j]).tag
                ==> forced[i].attr != forced[j].attr,
    ensures
        apply_forced(attrs, forced, tag) == attrs + forced_sattrs(forced, tag),
    decreases forced.len(),
{
    if forced.len() == 0 {
        assert(attrs + forced_sattrs(forced, tag) =~= attrs);
    } else {
        let rest = forced.drop_first();
        assert(forall|j: int| 0 <= j < rest.len() ==> #[trigger] rest[j] == forced[j + 1]);
        if forced[0].tag == tag {
            let f = SAttr { name: forced[0].attr, value: forced[0].value };
            let attrs2 = upsert(attrs, forced[0].attr, forced[0].value);
            assert(attrs2 == attrs.push(f));
            assert forall|j: int|
                0 <= j < rest.len() && (#[trigger] rest[j]).tag == tag implies find_attr(
                attrs2,
                rest[j].attr,
            ) is None by {
                lemma_find_attr_bounds(attrs, rest[j].attr);
                lemma_find_attr_bounds(attrs2, rest[j].attr);
                assert(rest[j].attr != forced[0].attr);
                assert forall|i: int| 0 <= i < attrs2.len() implies (#[trigger] attrs2[i]).name
                    != rest[j].attr by {
                    if i < attrs.len() {
                        assert(attrs2[i] == attrs[i]);
                    }
                }
            }
            lemma_apply_forced_appends(attrs2, rest, tag);
            assert(attrs2 + forced_sattrs(rest, tag) =~= attrs + forced_sattrs(forced, tag));
        } else {
            lemma_apply_forced_appends(attrs, rest, tag);
            assert(forced_sattrs(forced, tag) =~= forced_sattrs(rest, tag));
        }
    }
}

/// The names forcing appends are forced names.
pub proof fn lemma_forced_sattrs_names(
    forced: Seq<crate::policy::SForcedAttr>,
    tag: Seq<char>,
    q: spec_fn(Seq<char>) -> bool,
)
    requires
        forall|j: int|
            0 <= j < forced.len() && (#[trigger] forced[j]).tag == tag ==> q(forced[j].attr),
    ensures
        attr_names_ok(forced_sattrs(forced, tag), q),
    decreases forced.len(),
{
    if forced.len() > 0 {
        let rest = forced.drop_first();
        assert(forall|j: int| 0 <= j < rest.len() ==> #[trigger] rest[j] == forced[j + 1]);
        lemma_forced_sattrs_names(rest, tag, q);
        let out = forced_sattrs(forced, tag);
        assert forall|i: int| 0 <= i < out.len() implies q((#[trigger] out[i]).name) by {
            if forced[0].tag == tag {
                if i > 0 {
                    assert(out[i] == forced_sattrs(rest, tag)[i - 1]);
                }
            } else {
                assert(out[i] == forced_sattrs(rest, tag)[i]);
            }
        }
    }
}

/// Under the idempotence premises, processing a processed attribute list
/// changes nothing: filtering keeps the kept attributes, drops the
/// appended forced ones, and forcing appends them again, in the same
/// order and place.
pub proof fn lemma_process_attrs_idem(p: SPolicy, hook: SHook, tag: Seq<char>, attrs: Seq<SAttr>)
    requires
        pipeline_stable(p, hook),
        forced_not_admitted(p),
        forced_distinct(p),
        p.rel_ok(),
        p.tag_allowed(tag),
    ensures
        process_attrs(p, hook, tag, process_attrs(p, hook, tag, attrs)) == process_attrs(
            p,
            hook,
            tag,
            attrs,
        ),
{
    let forced = p.set_tag_attribute_values;
    let c = clean_attrs(p, hook, tag, attrs);
    let d = forced_sattrs(forced, tag);
    lemma_clean_attrs_names(p, hook, tag, attrs);
    // No forced name occurs in the filtered list: filtered names are
    // admitted, forced names are not.
    assert forall|j: int| 0 <= j < forced.len() && (#[trigger] forced[j]).tag == tag implies
        find_attr(c, forced[j].attr) is None by {
        lemma_find_attr_bounds(c, forced[j].attr);
        assert forall|i: int| 0 <= i < c.len() implies (#[trigger] c[i]).name != forced[j].attr by {
            assert(p.attr_name_allowed(tag, c[i].name));
        }
    }
    lemma_apply_forced_appends(c, forced, tag);
    let f = apply_forced(c, forced, tag);
    assert(f == c + d);
    let nq = (|nm: Seq<char>| !p.attr_name_allowed(tag, nm));
    lemma_forced_sattrs_names(forced, tag, nq);
    // The whole appended tail, the link `rel` included.
    let l = apply_link_rel(p, tag, f);
    let e = if p.link_rel is Some && tag == "a"@ {
        d.push(SAttr { name: "rel"@, value: p.link_rel->Some_0 })
    } else {
        d
    };
    if p.link_rel is Some && tag == "a"@ {
        lemma_find_attr_bounds(f, "rel"@);
        assert forall|i: int| 0 <= i < f.len() implies (#[trigger] f[i]).name != "rel"@ by {
            if i < c.len() {
                assert(f[i] == c[i]);
                assert(p.attr_name_allowed(tag, c[i].name));
            } else {
                assert(f[i] == d[i - c.len()]);
                assert(!p.forced_contains("a"@, "rel"@));
                assert(forall|j: int|
                    0 <= j < forced.len() && (#[trigger] forced[j]).tag == tag ==> forced[j].attr
                        != "rel"@);
                lemma_forced_sattrs_names(
                    forced,
                    tag,
                    |nm: Seq<char>| nm != "rel"@,
                );
            }
        }
        assert(l == f.push(SAttr { name: "rel"@, value: p.link_rel->Some_0 }));
        assert(l =~= c + e);
    } else {
        assert(l == f);
        assert(l =~= c + e);
    }
    assert(attr_names_ok(e, nq)) by {
        assert forall|i: int| 0 <= i < e.len() implies nq((#[trigger] e[i]).name) by {
            if i < d.len() {
                assert(e[i] == d[i]);
            }
        }
    }
    // Second pass, filtering: keeps the filtered part, drops the tail.
    lemma_clean_attrs_concat(p, hook, tag, c, e);
    lemma_clean_attrs_idem(p, hook, tag, attrs);
    lemma_clean_attrs_unallowed(p, hook, tag, e);
    assert(clean_attrs(p, hook, tag, l) =~= c);
    // Second pass, forcing: appends the same tail.
    let l2 = apply_link_rel(p, tag, apply_forced(clean_attrs(p, hook, tag, l), forced, tag));
    assert(apply_forced(c, forced, tag) == c + d);
    if p.link_rel is Some && tag == "a"@ {
        assert(l2 == (c + d).push(SAttr { name: "rel"@, value: p.link_rel->Some_0 }));
        assert(l2 =~= c + e);
    } else {
        assert(l2 =~= c + e);
    }
    assert(process_attrs(p, hook, tag, l) == l2);
    assert(process_attrs(p, hook, tag, attrs) == l);
    assert(l2 =~= l);
}

/// Whether a node is a fixed point of the walk: an allowed element whose
/// attribute list processing leaves unchanged, with fixed children; text;
/// or a comment under a policy that keeps comments.
pub open spec fn node_fixed(p: SPolicy, hook: SHook, n: SNode) -> bool
    decreases n,
{
    match n {
        SNode::Element { name, attrs, children } => p.tag_allowed(name) && process_attrs(
            p,
            hook,
            name,
            attrs,
        ) == attrs && nodes_fixed(p, hook, children),
        SNode::Text { .. } => true,
        SNode::Comment { .. } => !p.strip_comments,
    }
}

/// Whether every node of a forest is a fixed point of the walk.
pub open spec fn nodes_fixed(p: SPolicy, hook: SHook, ns: Seq<SNode>) -> bool
    decreases ns,
{
    if ns.len() == 0 {
        true
    } else {
        node_fixed(p, hook, ns[0]) && nodes_fixed(p, hook, ns.drop_first())
    }
}

/// `nodes_fixed` distributes over concatenation.
pub proof fn lemma_nodes_fixed_concat(p: SPolicy, hook: SHook, a: Seq<SNode>, b: Seq<SNode>)
    ensures
        nodes_fixed(p, hook, a + b) == (nodes_fixed(p, hook, a) && nodes_fixed(p, hook, b)),
    decreases a.len(),
{
    if a.len() == 0 {
        assert(a + b =~= b);
    } else {
        assert((a + b)[0] == a[0]);
        assert((a + b).drop_first() =~= a.drop_first() + b);
        lemma_nodes_fixed_concat(p, hook, a.drop_first(), b);
    }
}

/// Under the idempotence premises, everything the walker emits is a
/// fixed point.
pub proof fn lemma_clean_nodes_fixed(p: SPolicy, hook: SHook, ns: Seq<SNode>)
    requires
        pipeline_stable(p, hook),
        forced_not_admitted(p),
        forced_distinct(p),
        p.rel_ok(),
    ensures
        nodes_fixed(p, hook, clean_nodes(p, hook, ns)),
    decreases ns,
{
    if ns.len() > 0 {
        lemma_clean_node_fixed(p, hook, ns[0]);
        lemma_clean_nodes_fixed(p, hook, ns.drop_first());
        lemma_nodes_fixed_concat(
            p,
            hook,
            clean_node(p, hook, ns[0]),
            clean_nodes(p, hook, ns.drop_first()),
        );
    }
}

/// Under the idempotence premises, what the walker emits for one node is
/// a fixed forest.
pub proof fn lemma_clean_node_fixed(p: SPolicy, hook: SHook, n: SNode)
    requires
        pipeline_stable(p, hook),
        forced_not_admitted(p),
        forced_distinct(p),
        p.rel_ok(),
    ensures
        nodes_fixed(p, hook, clean_node(p, hook, n)),
    decreases n,
{
    match n {
        SNode::Text { text } => {
            let out = clean_node(p, hook, n);
            assert(out[0] == SNode::Text { text });
            assert(node_fixed(p, hook, out[0]));
            assert(out.drop_first() =~= Seq::<SNode>::empty());
            assert(nodes_fixed(p, hook, out.drop_first()));
            assert(nodes_fixed(p, hook, out));
        },
        SNode::Comment { text } => {
            let out = clean_node(p, hook, n);
            if !p.strip_comments {
                assert(out[0] == SNode::Comment { text });
                assert(node_fixed(p, hook, out[0]));
                assert(out.drop_first() =~= Seq::<SNode>::empty());
                assert(nodes_fixed(p, hook, out.drop_first()));
                assert(nodes_fixed(p, hook, out));
            }
        },
        SNode::Element { name, attrs, children } => {
            if p.tag_allowed(name) {
                lemma_process_attrs_idem(p, hook, name, attrs);
                lemma_clean_nodes_fixed(p, hook, children);
                let e = SNode::Element {
                    name,
                    attrs: process_attrs(p, hook, name, attrs),
                    children: clean_nodes(p, hook, children),
                };
                assert(node_fixed(p, hook, e));
                let out = clean_node(p, hook, n);
                assert(out == seq![e]);
                assert(out.drop_first() =~= Seq::<SNode>::empty());
                assert(nodes_fixed(p, hook, out.drop_first()));
            } else if p.is_clean_content(name) {
            } else {
                lemma_clean_nodes_fixed(p, hook, children);
            }
        },
    }
}

/// The walk leaves a fixed forest exactly as it is.
pub proof fn lemma_clean_fixed_identity(p: SPolicy, hook: SHook, ns: Seq<SNode>)
    requires
        nodes_fixed(p, hook, ns),
    ensures
        clean_nodes(p, hook, ns) == ns,
    decreases ns,
{
    if ns.len() > 0 {
        lemma_clean_fixed_node_identity(p, hook, ns[0]);
        lemma_clean_fixed_identity(p, hook, ns.drop_first());
        assert(clean_nodes(p, hook, ns) =~= ns);
    }
}

/// The walk leaves a fixed node as a singleton of itself.
pub proof fn lemma_clean_fixed_node_identity(p: SPolicy, hook: SHook, n: SNode)
    requires
        node_fixed(p, hook, n),
    ensures
        clean_node(p, hook, n) == seq![n],
    decreases n,
{
    match n {
        SNode::Text { text } => {},
        SNode::Comment { text } => {},
        SNode::Element { name, attrs, children } => {
            lemma_clean_fixed_identity(p, hook, children);
        },
    }
}

/// Idempotence: sanitizing what the sanitizer produced changes nothing —
/// for every input forest, under a stable per-attribute pipeline (a hook
/// that keeps what it has rewritten), forced attribute names the
/// allowlist does not itself admit, distinct forced names per tag, and a
/// conflict-free `rel` configuration.
pub proof fn lemma_sanitize_idempotent(p: SPolicy, hook: SHook, ns: Seq<SNode>)
    requires
        pipeline_stable(p, hook),
        forced_not_admitted(p),
        forced_distinct(p),
        p.rel_ok(),
    ensures
        clean_nodes(p, hook, clean_nodes(p, hook, ns)) == clean_nodes(p, hook, ns),
{
    lemma_clean_nodes_fixed(p, hook, ns);
    lemma_clean_fixed_identity(p, hook, clean_nodes(p, hook, ns));
}

/// Whether `q` holds of every attribute in the list.
pub open spec fn attrs_all(attrs: Seq<SAttr>, q: spec_fn(SAttr) -> bool) -> bool {
    forall|i: int| 0 <= i < attrs.len() ==> q(#[trigger] attrs[i])
}

/// `upsert` keeps a per-attribute property, given the set attribute has
/// it.
pub proof fn lemma_upsert_all(
    attrs: Seq<SAttr>,
    name: Seq<char>,
    value: Seq<char>,
    q: spec_fn(SAttr) -> bool,
)
    requires
        attrs_all(attrs, q),
        q(SAttr { name, value }),
    ensures
        attrs_all(upsert(attrs, name, value), q),
{
    lemma_find_attr_bounds(attrs, name);
    let out = upsert(attrs, name, value);
    assert forall|i: int| 0 <= i < out.len() implies q(#[trigger] out[i]) by {
        match find_attr(attrs, name) {
            Some(k) => {
                if i != k {
                    assert(out[i] == attrs[i]);
                }
            },
            None => {
                if i < attrs.len() {
                    assert(out[i] == attrs[i]);
                }
            },
        }
    }
}

/// Forcing keeps a per-attribute property, given every forced attribute
/// for the tag has it.
pub proof fn lemma_apply_forced_all(
    attrs: Seq<SAttr>,
    forced: Seq<crate::policy::SForcedAttr>,
    tag: Seq<char>,
    q: spec_fn(SAttr) -> bool,
)
    requires
        attrs_all(attrs, q),
        forall|j: int|
            0 <= j < forced.len() && (#[trigger] forced[j]).tag == tag ==> q(
                SAttr { name: forced[j].attr, value: forced[j].value },
            ),
    ensures
        attrs_all(apply_forced(attrs, forced, tag), q),
    decreases forced.len(),
{
    if forced.len() > 0 {
        let attrs2 = if forced[0].tag == tag {
            upsert(attrs, forced[0].attr, forced[0].value)
        } else {
            attrs
        };
        if forced[0].tag == tag {
            lemma_upsert_all(attrs, forced[0].attr, forced[0].value, q);
        }
        let rest = forced.drop_first();
        assert(forall|j: int| 0 <= j < rest.len() ==> #[trigger] rest[j] == forced[j + 1]);
        lemma_apply_forced_all(attrs2, rest, tag, q);
    }
}

/// A URL-bearing attribute's value is not rewritten before the hook:
/// the URL-bearing names are disjoint from `class` and `style`.
pub proof fn lemma_rewrite_keeps_url_value(
    p: SPolicy,
    tag: Seq<char>,
    name: Seq<char>,
    value: Seq<char>,
)
    requires
        crate::walker::is_url_attr(tag, name),
    ensures
        crate::walker::rewrite_value(p, tag, name, value) == value,
{
    reveal_strlit("class");
    reveal_strlit("style");
    reveal_strlit("href");
    reveal_strlit("xlink:href");
    reveal_strlit("src");
    reveal_strlit("action");
    reveal_strlit("data");
    reveal_strlit("formaction");
    reveal_strlit("ping");
    reveal_strlit("poster");
    assert("class"@.len() == 5 && "style"@.len() == 5);
    assert("href"@.len() == 4 && "xlink:href"@.len() == 10 && "src"@.len() == 3);
    assert("action"@.len() == 6 && "data"@.len() == 4 && "formaction"@.len() == 10);
    assert("ping"@.len() == 4 && "poster"@.len() == 6);
    assert(name != "class"@ && name != "style"@);
}

/// Whether the hook never weakens the scheme check: where a URL-bearing
/// attribute's value passed it, whatever the hook puts there passes too.
pub open spec fn hook_keeps_url_ok(p: SPolicy, hook: SHook) -> bool {
    forall|tag: Seq<char>, nm: Seq<char>, v: Seq<char>|
        p.tag_allowed(tag) && crate::walker::is_url_attr(tag, nm) && crate::walker::url_ok(
            p,
            tag,
            nm,
            v,
        ) && (#[trigger] hook(tag, nm, v)) is Some ==> crate::walker::url_ok(
            p,
            tag,
            nm,
            hook(tag, nm, v)->Some_0,
        )
}

/// Whether every forced value on a URL-bearing attribute passes the
/// scheme check, and the configured link `rel` is no scheme carrier.
pub open spec fn forced_url_ok(p: SPolicy) -> bool {
    forall|j: int|
        0 <= j < p.set_tag_attribute_values.len() && crate::walker::is_url_attr(
            (#[trigger] p.set_tag_attribute_values[j]).tag,
            p.set_tag_attribute_values[j].attr,
        ) ==> crate::walker::url_ok(
            p,
            p.set_tag_attribute_values[j].tag,
            p.set_tag_attribute_values[j].attr,
            p.set_tag_attribute_values[j].value,
        )
}

/// The scheme-enforcement property of one element.
pub open spec fn scheme_q(p: SPolicy) -> spec_fn(Seq<char>, Seq<SAttr>) -> bool {
    |name: Seq<char>, attrs: Seq<SAttr>|
        attrs_all(
            attrs,
            |a: SAttr| crate::walker::url_ok(p, name, a.name, a.value),
        )
}

/// Every attribute the per-attribute pipeline keeps passes the scheme
/// check, under a hook that never weakens it.
pub proof fn lemma_clean_attrs_url_ok(p: SPolicy, hook: SHook, tag: Seq<char>, attrs: Seq<SAttr>)
    requires
        hook_keeps_url_ok(p, hook),
        p.tag_allowed(tag),
    ensures
        attrs_all(
            clean_attrs(p, hook, tag, attrs),
            |a: SAttr| crate::walker::url_ok(p, tag, a.name, a.value),
        ),
    decreases attrs.len(),
{
    let q = (|a: SAttr| crate::walker::url_ok(p, tag, a.name, a.value));
    if attrs.len() > 0 {
        lemma_clean_attrs_url_ok(p, hook, tag, attrs.drop_first());
        let rest = clean_attrs(p, hook, tag, attrs.drop_first());
        match filter_attr(p, hook, tag, attrs[0]) {
            Some(b) => {
                assert(q(b)) by {
                    let a = attrs[0];
                    if crate::walker::is_url_attr(tag, a.name) {
                        lemma_rewrite_keeps_url_value(p, tag, a.name, a.value);
                        assert(hook(tag, a.name, a.value) is Some);
                        assert(b.value == hook(tag, a.name, a.value)->Some_0);
                    }
                }
                assert(clean_attrs(p, hook, tag, attrs) == seq![b] + rest);
                assert forall|i: int|
                    0 <= i < clean_attrs(p, hook, tag, attrs).len() implies q(
                    #[trigger] clean_attrs(p, hook, tag, attrs)[i],
                ) by {
                    if i > 0 {
                        assert((seq![b] + rest)[i] == rest[i - 1]);
                    }
                }
            },
            None => {
                assert(clean_attrs(p, hook, tag, attrs) =~= rest);
            },
        }
    }
}

/// Scheme enforcement: in everything the sanitizer emits, every
/// URL-bearing attribute's value either parses with a scheme on the
/// allowlist, or is a relative reference. This needs a hook that never
/// weakens the scheme check, and forced values that pass it.
pub proof fn lemma_scheme_enforcement(p: SPolicy, hook: SHook, ns: Seq<SNode>)
    requires
        hook_keeps_url_ok(p, hook),
        forced_url_ok(p),
    ensures
        all_elems(clean_nodes(p, hook, ns), scheme_q(p)),
{
    let q = scheme_q(p);
    assert forall|name: Seq<char>, attrs: Seq<SAttr>| p.tag_allowed(name) implies #[trigger] q(
        name,
        process_attrs(p, hook, name, attrs),
    ) by {
        let aq = (|a: SAttr| crate::walker::url_ok(p, name, a.name, a.value));
        lemma_clean_attrs_url_ok(p, hook, name, attrs);
        let cleaned = clean_attrs(p, hook, name, attrs);
        assert forall|j: int|
            0 <= j < p.set_tag_attribute_values.len()
                && (#[trigger] p.set_tag_attribute_values[j]).tag == name implies aq(
            SAttr {
                name: p.set_tag_attribute_values[j].attr,
                value: p.set_tag_attribute_values[j].value,
            },
        ) by {}
        lemma_apply_forced_all(cleaned, p.set_tag_attribute_values, name, aq);
        let forced = apply_forced(cleaned, p.set_tag_attribute_values, name);
        if p.link_rel is Some && name == "a"@ {
            assert(aq(SAttr { name: "rel"@, value: p.link_rel->Some_0 })) by {
                reveal_strlit("rel");
                reveal_strlit("href");
                reveal_strlit("xlink:href");
                reveal_strlit("src");
                reveal_strlit("action");
                reveal_strlit("data");
                reveal_strlit("formaction");
                reveal_strlit("ping");
                reveal_strlit("poster");
                assert("rel"@.len() == 3 && "href"@.len() == 4 && "xlink:href"@.len() == 10);
                assert("src"@.len() == 3 && "rel"@[0] == 'r' && "src"@[0] == 's');
                assert("action"@.len() == 6 && "data"@.len() == 4);
                assert("formaction"@.len() == 10 && "ping"@.len() == 4 && "poster"@.len() == 6);
                assert(!crate::walker::is_url_attr(name, "rel"@));
            }
            lemma_upsert_all(forced, "rel"@, p.link_rel->Some_0, aq);
        }
    }
    lemma_clean_all_elems(p, hook, ns, q);
}

/// Whether every token of the sequence is on the allowlist.
pub open spec fn tokens_in(ts: Seq<Seq<char>>, allowed: Seq<Seq<char>>) -> bool {
    forall|i: int| 0 <= i < ts.len() ==> allowed.contains(#[trigger] ts[i])
}

/// Whether the hook never weakens class filtering: where a `class`
/// value's tokens are all allowed for the tag, whatever the hook puts
/// there keeps that.
pub open spec fn hook_keeps_classes(p: SPolicy, hook: SHook) -> bool {
    forall|tag: Seq<char>, v: Seq<char>|
        p.tag_allowed(tag) && p.classes_for(tag) is Some && tokens_in(
            crate::classes::split_ws(v),
            p.classes_for(tag)->Some_0,
        ) && (#[trigger] hook(tag, "class"@, v)) is Some ==> tokens_in(
            crate::classes::split_ws(hook(tag, "class"@, v)->Some_0),
            p.classes_for(tag)->Some_0,
        )
}

/// Whether no forced entry sets `class` on a tag with class filtering.
pub open spec fn class_not_forced(p: SPolicy) -> bool {
    forall|j: int|
        0 <= j < p.set_tag_attribute_values.len() ==> !((#[trigger] p.set_tag_attribute_values[j]).attr
            == "class"@ && p.classes_for(p.set_tag_attribute_values[j].tag) is Some)
}

/// The class-filtering property of one element: on a tag with class
/// filtering, every `class` attribute's tokens are all on the tag's
/// allowlist.
pub open spec fn classes_q(p: SPolicy) -> spec_fn(Seq<char>, Seq<SAttr>) -> bool {
    |name: Seq<char>, attrs: Seq<SAttr>|
        p.classes_for(name) is Some ==> attrs_all(
            attrs,
            |a: SAttr|
                a.name == "class"@ ==> tokens_in(
                    crate::classes::split_ws(a.value),
                    p.classes_for(name)->Some_0,
                ),
        )
}

/// Class filtering: in everything the sanitizer emits, on every tag with
/// a configured class allowlist, the tokens of every `class` attribute
/// are a subset of that allowlist — and by `lemma_filter_class_exact`
/// the filter keeps exactly the allowed input tokens in their original
/// order. This needs a hook that never weakens class filtering and no
/// forced `class` on such tags.
pub proof fn lemma_class_filtering(p: SPolicy, hook: SHook, ns: Seq<SNode>)
    requires
        hook_keeps_classes(p, hook),
        class_not_forced(p),
    ensures
        all_elems(clean_nodes(p, hook, ns), classes_q(p)),
{
    let q = classes_q(p);
    assert forall|name: Seq<char>, attrs: Seq<SAttr>| p.tag_allowed(name) implies #[trigger] q(
        name,
        process_attrs(p, hook, name, attrs),
    ) by {
        if p.classes_for(name) is Some {
            let cs = p.classes_for(name)->Some_0;
            let aq = (|a: SAttr|
                a.name == "class"@ ==> tokens_in(crate::classes::split_ws(a.value), cs));
            lemma_clean_attrs_classes(p, hook, name, attrs);
            let cleaned = clean_attrs(p, hook, name, attrs);
            assert forall|j: int|
                0 <= j < p.set_tag_attribute_values.len()
                    && (#[trigger] p.set_tag_attribute_values[j]).tag == name implies aq(
                SAttr {
                    name: p.set_tag_attribute_values[j].attr,
                    value: p.set_tag_attribute_values[j].value,
                },
            ) by {}
            lemma_apply_forced_all(cleaned, p.set_tag_attribute_values, name, aq);
            let forced = apply_forced(cleaned, p.set_tag_attribute_values, name);
            if p.link_rel is Some && name == "a"@ {
                assert(aq(SAttr { name: "rel"@, value: p.link_rel->Some_0 })) by {
                    reveal_strlit("rel");
                    reveal_strlit("class");
                    assert("rel"@.len() == 3 && "class"@.len() == 5);
                }
                lemma_upsert_all(forced, "rel"@, p.link_rel->Some_0, aq);
            }
        }
    }
    lemma_clean_all_elems(p, hook, ns, q);
}

/// Every `class` attribute the per-attribute pipeline keeps, on a tag
/// with class filtering, holds only allowed tokens.
pub proof fn lemma_clean_attrs_classes(p: SPolicy, hook: SHook, tag: Seq<char>, attrs: Seq<SAttr>)
    requires
        hook_keeps_classes(p, hook),
        p.tag_allowed(tag),
        p.classes_for(tag) is Some,
    ensures
        attrs_all(
            clean_attrs(p, hook, tag, attrs),
            |a: SAttr|
                a.name == "class"@ ==> tokens_in(
                    crate::classes::split_ws(a.value),
                    p.classes_for(tag)->Some_0,
                ),
        ),
    decreases attrs.len(),
{
    let cs = p.classes_for(tag)->Some_0;
    let q = (|a: SAttr|
        a.name == "class"@ ==> tokens_in(crate::classes::split_ws(a.value), cs));
    if attrs.len() > 0 {
        lemma_clean_attrs_classes(p, hook, tag, attrs.drop_first());
        let rest = clean_attrs(p, hook, tag, attrs.drop_first());
        match filter_attr(p, hook, tag, attrs[0]) {
            Some(b) => {
                assert(q(b)) by {
                    let a = attrs[0];
                    if a.name == "class"@ {
                        let v2 = crate::walker::rewrite_value(p, tag, a.name, a.value);
                        assert(v2 == crate::classes::filter_class_value(cs, a.value));
                        crate::classes::lemma_filter_class_exact(cs, a.value);
                        crate::classes::lemma_split_ws_wf(a.value);
                        crate::classes::lemma_keep_allowed_sub(
                            crate::classes::split_ws(a.value),
                            cs,
                        );
                        assert(tokens_in(crate::classes::split_ws(v2), cs));
                        assert(hook(tag, a.name, v2) is Some);
                        assert(b.value == hook(tag, "class"@, v2)->Some_0);
                    }
                }
                assert(clean_attrs(p, hook, tag, attrs) == seq![b] + rest);
                assert forall|i: int|
                    0 <= i < clean_attrs(p, hook, tag, attrs).len() implies q(
                    #[trigger] clean_attrs(p, hook, tag, attrs)[i],
                ) by {
                    if i > 0 {
                        assert((seq![b] + rest)[i] == rest[i - 1]);
                    }
                }
            },
            None => {
                assert(clean_attrs(p, hook, tag, attrs) =~= rest);
            },
        }
    }
}

/// The no-deleted-tags property of one element.
pub open spec fn no_clean_content_q(p: SPolicy) -> spec_fn(Seq<char>, Seq<SAttr>) -> bool {
    |name: Seq<char>, attrs: Seq<SAttr>| !p.is_clean_content(name)
}

/// Subtree deletion: a disallowed element whose tag is marked
/// delete-with-content leaves nothing in the output — not the element,
/// not any of its descendants, however deep. And under a policy free of
/// the allowed/deleted conflict, no element with such a tag appears
/// anywhere in any output.
pub proof fn lemma_subtree_deletion(p: SPolicy, hook: SHook, n: SNode, ns: Seq<SNode>)
    requires
        n matches SNode::Element { name, .. } && p.is_clean_content(name) && !p.tag_allowed(name),
        p.clean_content_ok(),
    ensures
        clean_node(p, hook, n) == Seq::<SNode>::empty(),
        all_elems(clean_nodes(p, hook, ns), no_clean_content_q(p)),
{
    let q = no_clean_content_q(p);
    assert forall|name: Seq<char>, attrs: Seq<SAttr>| p.tag_allowed(name) implies #[trigger] q(
        name,
        process_attrs(p, hook, name, attrs),
    ) by {
        if p.is_clean_content(name) {
            let i = choose|i: int|
                0 <= i < p.clean_content_tags.len() && p.clean_content_tags[i] == name;
            assert(!p.tags.contains(p.clean_content_tags[i]));
        }
    }
    lemma_clean_all_elems(p, hook, ns, q);
}

/// Whether no literal-value allowlist constrains an attribute whose
/// value the policy itself rewrites: `class` under class filtering,
/// `style` under style filtering. Such a pair could drop on a second
/// pass what the first pass rewrote.
pub open spec fn no_values_on_rewritten(p: SPolicy) -> bool {
    forall|tag: Seq<char>|
        #[trigger] p.tag_allowed(tag) ==> (p.classes_for(tag) is Some ==> p.values_for(
            tag,
            "class"@,
        ) is None) && (p.filter_style_properties is Some ==> p.values_for(tag, "style"@) is None)
}

/// Without a hook the per-attribute pipeline is stable, provided no
/// literal-value allowlist constrains a rewritten attribute: class and
/// style rewriting are idempotent, and nothing else changes a value.
pub proof fn lemma_identity_pipeline_stable(p: SPolicy)
    requires
        no_values_on_rewritten(p),
    ensures
        pipeline_stable(p, crate::filter::identity_hook()),
{
    let hook = crate::filter::identity_hook();
    assert forall|tag: Seq<char>, a: SAttr|
        p.tag_allowed(tag) && (#[trigger] filter_attr(p, hook, tag, a)) is Some implies
        filter_attr(p, hook, tag, filter_attr(p, hook, tag, a)->Some_0) == filter_attr(
        p,
        hook,
        tag,
        a,
    ) by {
        let v2 = crate::walker::rewrite_value(p, tag, a.name, a.value);
        let b = SAttr { name: a.name, value: v2 };
        assert(filter_attr(p, hook, tag, a) == Some(b));
        assert(crate::walker::url_ok(p, tag, b.name, b.value)) by {
            if crate::walker::is_url_attr(tag, a.name) {
                lemma_rewrite_keeps_url_value(p, tag, a.name, a.value);
            }
        }
        assert(crate::walker::value_ok(p, tag, b.name, b.value)) by {
            if p.values_for(tag, a.name) is Some {
                assert(v2 == a.value);
            }
        }
        assert(crate::walker::rewrite_value(p, tag, b.name, b.value) == b.value) by {
            if a.name == "class"@ && p.classes_for(tag) is Some {
                crate::classes::lemma_filter_class_idempotent(
                    p.classes_for(tag)->Some_0,
                    a.value,
                );
            } else if a.name == "style"@ && p.filter_style_properties is Some {
                crate::css::lemma_filter_style_idempotent(
                    p.filter_style_properties->Some_0,
                    a.value,
                );
            }
        }
        assert(filter_attr(p, hook, tag, b) == Some(b));
    }
}

/// Idempotence without a hook: under the forced-attribute premises and
/// with no literal-value allowlist on a rewritten attribute, sanitizing
/// what the sanitizer produced changes nothing.
pub proof fn lemma_sanitize_idempotent_no_hook(p: SPolicy, ns: Seq<SNode>)
    requires
        no_values_on_rewritten(p),
        forced_not_admitted(p),
        forced_distinct(p),
        p.rel_ok(),
    ensures
        clean_nodes(
            p,
            crate::filter::identity_hook(),
            clean_nodes(p, crate::filter::identity_hook(), ns),
        ) == clean_nodes(p, crate::filter::identity_hook(), ns),
{
    lemma_identity_pipeline_stable(p);
    lemma_sanitize_idempotent(p, crate::filter::identity_hook(), ns);
}


} // verus!
