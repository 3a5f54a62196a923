//! The sanitizer: a validated policy plus the tree walk, parse and
//! serialize steps around it.
//!
//! Construction fails fast on a conflicting configuration; a constructed
//! [`Cleaner`] sanitizes any input without failing, holding no state
//! across calls.

use vstd::prelude::*;

use crate::ext::parse_html_fragment;
use crate::ext::parse_of;
use crate::ext::serialize_nodes;
use crate::ext::serialize_of;
use crate::filter::identity_hook;
use crate::filter::AttrFilter;
use crate::filter::NoFilter;
use crate::policy::Policy;
use crate::policy::SPolicy;
use crate::strutil::contains_string;
use crate::walker::clean_nodes;
use crate::walker::clean_nodes_exec;
use vstd::string::StringExecFns;

verus! {

broadcast use vstd::seq::group_seq_axioms, vstd::std_specs::vec::group_vec_axioms;

/// A conflicting policy, reported by [`Cleaner::new`] before any input is
/// touched.
#[derive(Debug, Clone, PartialEq, Eq)]
pub enum PolicyError {
    /// A link `rel` value is configured while `rel` is also allowed or
    /// forced on `a` elements through the attribute maps.
    RelConflict,
    /// Class filtering is configured while `class` is also allowed through
    /// the attribute maps.
    ClassConflict,
    /// A tag is listed both as allowed and as delete-with-content, or has
    /// attributes allowed while delete-with-content.
    CleanContentConflict,
    /// Style-property filtering is configured while whole `style` elements
    /// are allowed.
    StyleConflict,
}

impl SPolicy {
    /// Whether some forced entry sets this attribute on this tag.
    pub open spec fn forced_contains(self, tag: Seq<char>, attr: Seq<char>) -> bool {
        exists|i: int|
            0 <= i < self.set_tag_attribute_values.len()
                && self.set_tag_attribute_values[i].tag == tag
                && self.set_tag_attribute_values[i].attr == attr
    }

    /// Whether some tag-attribute entry is keyed by this tag.
    pub open spec fn tag_attrs_has_tag(self, tag: Seq<char>) -> bool {
        exists|i: int| 0 <= i < self.tag_attributes.len() && self.tag_attributes[i].tag == tag
    }

    /// No conflicting `rel` configuration: where a link `rel` value is
    /// set, `rel` is neither allowed nor forced on `a` elements.
    pub open spec fn rel_ok(self) -> bool {
        self.link_rel is Some ==> !self.generic_attributes.contains("rel"@)
            && !self.tag_attr_listed("a"@, "rel"@) && !self.forced_contains("a"@, "rel"@)
    }

    /// No conflicting class configuration: where class filtering applies,
    /// `class` is not also allowed through the attribute maps.
    pub open spec fn class_ok(self) -> bool {
        &&& (self.allowed_classes.len() > 0 ==> !self.generic_attributes.contains("class"@))
        &&& forall|i: int|
            0 <= i < self.allowed_classes.len() ==> !self.tag_attr_listed(
                (#[trigger] self.allowed_classes[i]).tag,
                "class"@,
            )
    }

    /// No tag both allowed and deleted-with-content, nor with attributes
    /// allowed while deleted-with-content.
    pub open spec fn clean_content_ok(self) -> bool {
        forall|i: int|
            0 <= i < self.clean_content_tags.len() ==> !self.tags.contains(
                #[trigger] self.clean_content_tags[i],
            ) && !self.tag_attrs_has_tag(self.clean_content_tags[i])
    }

    /// Style-property filtering only works on `style` attributes, not on
    /// whole `style` elements.
    pub open spec fn style_ok(self) -> bool {
        self.tags.contains("style"@) ==> self.filter_style_properties is None
    }

    /// A well-formed policy: free of each conflict.
    pub open spec fn wf(self) -> bool {
        self.rel_ok() && self.class_ok() && self.clean_content_ok() && self.style_ok()
    }
}

impl Policy {
    /// Whether some forced entry sets this attribute on this tag.
    fn forced_contains(&self, tag: &String, attr: &String) -> (r: bool)
        ensures
            r == self@.forced_contains(tag@, attr@),
    {
        let mut i: usize = 0;
        while i < self.set_tag_attribute_values.len()
            invariant
                i <= self.set_tag_attribute_values.len(),
                forall|j: int|
                    0 <= j < i ==> !((#[trigger] self@.set_tag_attribute_values[j]).tag == tag@
                        && self@.set_tag_attribute_values[j].attr == attr@),
            decreases self.set_tag_attribute_values.len() - i,
        {
            assert(self@.set_tag_attribute_values[i as int]
                == self.set_tag_attribute_values@[i as int]@);
            let e = &self.set_tag_attribute_values[i];
            if e.tag.eq(tag) && e.attr.eq(attr) {
                return true;
            }
            i = i + 1;
        }
        false
    }

    /// Whether some tag-attribute entry is keyed by this tag.
    fn tag_attrs_has_tag(&self, tag: &String) -> (r: bool)
        ensures
            r == self@.tag_attrs_has_tag(tag@),
    {
        let mut i: usize = 0;
        while i < self.tag_attributes.len()
            invariant
                i <= self.tag_attributes.len(),
                forall|j: int| 0 <= j < i ==> (#[trigger] self@.tag_attributes[j]).tag != tag@,
            decreases self.tag_attributes.len() - i,
        {
            assert(self@.tag_attributes[i as int] == self.tag_attributes@[i as int]@);
            if self.tag_attributes[i].tag.eq(tag) {
                return true;
            }
            i = i + 1;
        }
        false
    }

    /// Whether the `rel` configuration is conflict-free.
    fn check_rel(&self) -> (r: bool)
        ensures
            r == self@.rel_ok(),
    {
        match &self.link_rel {
            None => true,
            Some(_) => {
                let rel = String::from_str("rel");
                let a = String::from_str("a");
                if contains_string(&self.generic_attributes, &rel) {
                    return false;
                }
                if self.forced_contains(&a, &rel) {
                    return false;
                }
                let mut i: usize = 0;
                while i < self.tag_attributes.len()
                    invariant
                        i <= self.tag_attributes.len(),
                        rel@ == "rel"@,
                        a@ == "a"@,
                        self@.link_rel is Some,
                        !self@.generic_attributes.contains("rel"@),
                        !self@.forced_contains("a"@, "rel"@),
                        forall|j: int|
                            0 <= j < i ==> !((#[trigger] self@.tag_attributes[j]).tag == "a"@
                                && self@.tag_attributes[j].attrs.contains("rel"@)),
                    decreases self.tag_attributes.len() - i,
                {
                    assert(self@.tag_attributes[i as int] == self.tag_attributes@[i as int]@);
                    let e = &self.tag_attributes[i];
                    if e.tag.eq(&a) && contains_string(&e.attrs, &rel) {
                        assert(self@.tag_attributes[i as int].tag == "a"@
                            && self@.tag_attributes[i as int].attrs.contains("rel"@));
                        assert(self@.tag_attr_listed("a"@, "rel"@));
                        return false;
                    }
                    i = i + 1;
                }
                assert(!self@.tag_attr_listed("a"@, "rel"@));
                true
            },
        }
    }

    /// Whether the class configuration is conflict-free.
    fn check_classes(&self) -> (r: bool)
        ensures
            r == self@.class_ok(),
    {
        let class = String::from_str("class");
        if self.allowed_classes.len() > 0 && contains_string(&self.generic_attributes, &class) {
            return false;
        }
        let mut i: usize = 0;
        while i < self.allowed_classes.len()
            invariant
                i <= self.allowed_classes.len(),
                self.allowed_classes@.len() > 0 ==> !self@.generic_attributes.contains("class"@),
                class@ == "class"@,
                forall|j: int|
                    0 <= j < i ==> !self@.tag_attr_listed(
                        (#[trigger] self@.allowed_classes[j]).tag,
                        "class"@,
                    ),
            decreases self.allowed_classes.len() - i,
        {
            assert(self@.allowed_classes[i as int] == self.allowed_classes@[i as int]@);
            let mut k: usize = 0;
            let entry_tag = &self.allowed_classes[i].tag;
            while k < self.tag_attributes.len()
                invariant
                    k <= self.tag_attributes.len(),
                    class@ == "class"@,
                    entry_tag@ == self@.allowed_classes[i as int].tag,
                    i < self.allowed_classes@.len(),
                    forall|j: int|
                        0 <= j < k ==> !((#[trigger] self@.tag_attributes[j]).tag == entry_tag@
                            && self@.tag_attributes[j].attrs.contains("class"@)),
                decreases self.tag_attributes.len() - k,
            {
                assert(self@.tag_attributes[k as int] == self.tag_attributes@[k as int]@);
                let e = &self.tag_attributes[k];
                if e.tag.eq(entry_tag) && contains_string(&e.attrs, &class) {
                    assert(self@.tag_attributes[k as int].tag == entry_tag@
                        && self@.tag_attributes[k as int].attrs.contains("class"@));
                    assert(self@.tag_attr_listed(entry_tag@, "class"@));
                    return false;
                }
                k = k + 1;
            }
            assert(!self@.tag_attr_listed(entry_tag@, "class"@));
            i = i + 1;
        }
        true
    }

    /// Whether the delete-with-content configuration is conflict-free.
    fn check_clean_content(&self) -> (r: bool)
        ensures
            r == self@.clean_content_ok(),
    {
        let mut i: usize = 0;
        while i < self.clean_content_tags.len()
            invariant
                i <= self.clean_content_tags.len(),
                forall|j: int|
                    0 <= j < i ==> !self@.tags.contains(#[trigger] self@.clean_content_tags[j])
                        && !self@.tag_attrs_has_tag(self@.clean_content_tags[j]),
            decreases self.clean_content_tags.len() - i,
        {
            assert(self@.clean_content_tags[i as int] == self.clean_content_tags@[i as int]@);
            let t = &self.clean_content_tags[i];
            if contains_string(&self.tags, t) {
                return false;
            }
            if self.tag_attrs_has_tag(t) {
                return false;
            }
            i = i + 1;
        }
        true
    }

    /// Whether the style configuration is conflict-free.
    fn check_style(&self) -> (r: bool)
        ensures
            r == self@.style_ok(),
    {
        match &self.filter_style_properties {
            None => true,
            Some(_) => {
                let style = String::from_str("style");
                !contains_string(&self.tags, &style)
            },
        }
    }
}

/// A reusable sanitizer: a policy checked free of conflicts.
#[derive(Debug)]
pub struct Cleaner {
    policy: Policy,
}

impl Cleaner {
    /// The model of the held policy.
    pub closed spec fn policy_spec(&self) -> SPolicy {
        self.policy@
    }

    /// Build a sanitizer from a policy, failing fast on a conflicting
    /// configuration: each error names the first conflict found, and a
    /// sanitizer is returned exactly when the policy is well formed.
    pub fn new(policy: Policy) -> (r: Result<Cleaner, PolicyError>)
        ensures
            policy@.wf() <==> r is Ok,
            r matches Ok(c) ==> c.policy_spec() == policy@,
            r == Err::<Cleaner, PolicyError>(PolicyError::RelConflict) <==> !policy@.rel_ok(),
            r == Err::<Cleaner, PolicyError>(PolicyError::ClassConflict) <==> policy@.rel_ok()
                && !policy@.class_ok(),
            r == Err::<Cleaner, PolicyError>(PolicyError::CleanContentConflict) <==> policy@.rel_ok()
                && policy@.class_ok() && !policy@.clean_content_ok(),
            r == Err::<Cleaner, PolicyError>(PolicyError::StyleConflict) <==> policy@.rel_ok()
                && policy@.class_ok() && policy@.clean_content_ok() && !policy@.style_ok(),
    {
        if !policy.check_rel() {
            return Err(PolicyError::RelConflict);
        }
        if !policy.check_classes() {
            return Err(PolicyError::ClassConflict);
        }
        if !policy.check_clean_content() {
            return Err(PolicyError::CleanContentConflict);
        }
        if !policy.check_style() {
            return Err(PolicyError::StyleConflict);
        }
        Ok(Cleaner { policy })
    }

    /// Sanitize an HTML fragment: parse it, walk the tree under the held
    /// policy with no attribute filter hook, and serialize what survives.
    pub fn clean(&self, html: &str) -> (r: String)
        ensures
            r@ == serialize_of(clean_nodes(self.policy_spec(), identity_hook(), parse_of(html@))),
    {
        let f = NoFilter {  };
        let nodes = parse_html_fragment(html);
        let cleaned = clean_nodes_exec(&self.policy, &f, nodes);
        serialize_nodes(&cleaned)
    }

    /// Sanitize an HTML fragment, consulting the given attribute filter
    /// hook once per attribute that survives the static policy checks.
    pub fn clean_with_filter<F: AttrFilter>(&self, html: &str, f: &F) -> (r: String)
        ensures
            r@ == serialize_of(clean_nodes(self.policy_spec(), f.hook(), parse_of(html@))),
    {
        let nodes = parse_html_fragment(html);
        let cleaned = clean_nodes_exec(&self.policy, f, nodes);
        serialize_nodes(&cleaned)
    }
}

/// Sanitize an HTML fragment with the default policy: the conservative
/// base allowlists, comments stripped, links forced to
/// `rel="noopener noreferrer"`.
pub fn clean(html: &str) -> (r: String)
    ensures
        r@ == serialize_of(
            clean_nodes(
                crate::defaults::default_spolicy(),
                identity_hook(),
                parse_of(html@),
            ),
        ),
{
    let p = crate::defaults::default_policy();
    let f = NoFilter {  };
    let nodes = parse_html_fragment(html);
    let cleaned = clean_nodes_exec(&p, &f, nodes);
    serialize_nodes(&cleaned)
}

} // verus!
